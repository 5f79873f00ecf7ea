//! State of Kyber Elastic pools.

use crate::base::types::Address;
use crate::data::pool_state::net_at;
use crate::data::table::{distinct, AddressTable};
use crate::dex::clmm::{is_tick_of, max_sqrt_ratio, min_sqrt_ratio, MAX_TICK, MIN_TICK};
use crate::dex::kyber::math::liq_delta_math::{
    apply_liquidity_delta, law_remove_undoes_add, liquidity_delta_spec, magnitude,
};
use crate::dex::kyber::math::swap_math::{compute_swap_step, kyber_step_spec};
use crate::dex::kyber::math::tick_math::{get_tick_at_sqrt_ratio, kyber_tick_spec};
use crate::dex::ranges::{is_leg, step_leg, Charge};
use crate::u256::{bit, is_union, lemma_bit_of_power, lemma_limit_is_pow2, u256_limit, U256};
use std::collections::{HashMap, HashSet};
use vstd::arithmetic::power2::{lemma_pow2_strictly_increases, pow2};
use vstd::prelude::*;
use vstd::string::StringExecFns;

verus! {

/// State of a Kyber Elastic pool.
#[derive(Debug)]
pub struct KyberPoolState {
    pub pool_address: Address,
    pub token0: Address,
    pub token1: Address,
    /// The fee in basis points.
    pub fee_tier: u32,
    pub tick_spacing: i32,
    pub current_tick: i32,
    pub sqrt_price_x96: U256,
    pub liquidity: u128,
    /// Liquidity that collected fees have added.
    pub reinvestment_liquidity: u128,
    /// One bit per initialized tick, in words of 256 ticks.
    pub tick_bitmap: HashMap<i32, U256>,
    /// The signed liquidity change at each tick.
    pub tick_liquidity: HashMap<i32, i128>,
    pub initialized_ticks: HashSet<i32>,
    pub last_update_block: u64,
}

/// What a [`KyberPoolState`] says.
#[verifier::ext_equal]
pub struct KyberPoolView {
    pub pool_address: Address,
    pub token0: Address,
    pub token1: Address,
    pub fee_tier: u32,
    pub tick_spacing: i32,
    pub current_tick: i32,
    pub sqrt_price_x96: nat,
    pub liquidity: u128,
    pub reinvestment_liquidity: u128,
    pub tick_bitmap: Map<i32, U256>,
    pub tick_liquidity: Map<i32, i128>,
    pub initialized_ticks: Set<i32>,
    pub last_update_block: u64,
}

impl View for KyberPoolState {
    type V = KyberPoolView;

    open spec fn view(&self) -> KyberPoolView {
        KyberPoolView {
            pool_address: self.pool_address,
            token0: self.token0,
            token1: self.token1,
            fee_tier: self.fee_tier,
            tick_spacing: self.tick_spacing,
            current_tick: self.current_tick,
            sqrt_price_x96: self.sqrt_price_x96@,
            liquidity: self.liquidity,
            reinvestment_liquidity: self.reinvestment_liquidity,
            tick_bitmap: self.tick_bitmap@,
            tick_liquidity: self.tick_liquidity@,
            initialized_ticks: self.initialized_ticks@,
            last_update_block: self.last_update_block,
        }
    }
}

/// Copies a set of ticks.
fn copied_set(ticks: &HashSet<i32>) -> (r: HashSet<i32>)
    ensures
        r@ == ticks@,
{
    let mut out: HashSet<i32> = HashSet::new();
    for t in it: ticks.iter()
        invariant
            out@ == it.seq().unref().take(it.index()).to_set(),
            it.seq().unref().to_set() == ticks@,
            it.index() == it.seq().len() ==> out@ == it.seq().unref().to_set(),
    {
        out.insert(*t);
        proof {
            let all = it.seq().unref();
            let done = all.take(it.index());
            let more = all.take(it.index() + 1);
            assert(more =~= done.push(*t));
            assert(all.take(all.len() as int) =~= all);
            assert forall|x: i32| more.to_set().contains(x) == done.to_set().insert(*t).contains(
                x,
            ) by {
                if done.contains(x) {
                    let k = choose|k: int| 0 <= k < done.len() && done[k] == x;
                    assert(more[k] == x);
                }
                if x == *t {
                    assert(more[it.index()] == x);
                }
            }
            assert(more.to_set() =~= done.to_set().insert(*t));
        }
    }
    out
}

impl Clone for KyberPoolState {
    fn clone(&self) -> (r: KyberPoolState)
        ensures
            r@ == self@,
    {
        KyberPoolState {
            pool_address: self.pool_address,
            token0: self.token0,
            token1: self.token1,
            fee_tier: self.fee_tier,
            tick_spacing: self.tick_spacing,
            current_tick: self.current_tick,
            sqrt_price_x96: self.sqrt_price_x96,
            liquidity: self.liquidity,
            reinvestment_liquidity: self.reinvestment_liquidity,
            tick_bitmap: self.tick_bitmap.clone(),
            tick_liquidity: self.tick_liquidity.clone(),
            initialized_ticks: copied_set(&self.initialized_ticks),
            last_update_block: self.last_update_block,
        }
    }
}

/// The word of the bitmap that holds a tick.
pub open spec fn word_of(tick: i32) -> int {
    tick as int / 256
}

/// The bit of its word that stands for a tick.
pub open spec fn bit_of(tick: i32) -> nat {
    magnitude(tick as int) % 256
}

/// A word of a bitmap, zero where there is none.
pub open spec fn word_at(bitmap: Map<i32, U256>, word: i32) -> nat {
    if bitmap.contains_key(word) {
        bitmap[word]@
    } else {
        0
    }
}

/// `after` is the bitmap with the bit of a tick set, and nothing else changed.
pub open spec fn marks(before: Map<i32, U256>, tick: i32, after: Map<i32, U256>) -> bool {
    let word = word_of(tick) as i32;
    &&& after.contains_key(word)
    &&& after == before.insert(word, after[word])
    &&& is_union(word_at(before, word), pow2(bit_of(tick)), after[word]@)
}

/// A number held within the signed 128-bit numbers.
pub open spec fn saturated(n: int) -> i128 {
    if n < i128::MIN {
        i128::MIN
    } else if n > i128::MAX {
        i128::MAX
    } else {
        n as i128
    }
}

/// The liquidity changes after a change of liquidity in a range.
pub open spec fn range_liquidity(net: Map<i32, i128>, lower: i32, upper: i32, delta: int) -> Map<
    i32,
    i128,
> {
    let first = net.insert(lower, saturated(net_at(net, lower) + delta));
    first.insert(upper, saturated(net_at(first, upper) - delta))
}

/// `after` is the pool with a tick range initialized and a change of liquidity in that range.
pub open spec fn range_initialized(
    before: KyberPoolView,
    lower: i32,
    upper: i32,
    delta: int,
    after: KyberPoolView,
) -> bool {
    &&& after == (KyberPoolView {
        tick_bitmap: after.tick_bitmap,
        tick_liquidity: range_liquidity(before.tick_liquidity, lower, upper, delta),
        initialized_ticks: before.initialized_ticks.insert(lower).insert(upper),
        ..before
    })
    &&& exists|between: Map<i32, U256>|
        #[trigger] marks(before.tick_bitmap, lower, between) && marks(
            between,
            upper,
            after.tick_bitmap,
        )
}

/// Adds two signed numbers, held within their range.
fn add_saturated(a: i128, b: i128) -> (r: i128)
    ensures
        r == saturated(a + b),
{
    match a.checked_add(b) {
        Some(v) => v,
        None => if b < 0 {
            i128::MIN
        } else {
            i128::MAX
        },
    }
}

/// Subtracts two signed numbers, held within their range.
fn sub_saturated(a: i128, b: i128) -> (r: i128)
    ensures
        r == saturated(a - b),
{
    match a.checked_sub(b) {
        Some(v) => v,
        None => if b < 0 {
            i128::MAX
        } else {
            i128::MIN
        },
    }
}

impl KyberPoolState {
    /// A pool at a price. A price outside the price range has tick zero.
    pub fn new(
        pool_address: Address,
        token0: Address,
        token1: Address,
        fee_tier: u32,
        tick_spacing: i32,
        initial_sqrt_price: U256,
        initial_liquidity: u128,
    ) -> (r: KyberPoolState)
        ensures
            r@ == initial_pool(
                pool_address,
                token0,
                token1,
                fee_tier,
                tick_spacing,
                initial_sqrt_price@,
                initial_liquidity,
            ),
            min_sqrt_ratio() <= initial_sqrt_price@ < max_sqrt_ratio() ==> is_tick_of(
                r.current_tick as int,
                initial_sqrt_price@,
            ),
    {
        let current_tick: i32 = match get_tick_at_sqrt_ratio(initial_sqrt_price) {
            Ok(t) => t,
            Err(_) => 0,
        };
        KyberPoolState {
            pool_address,
            token0,
            token1,
            fee_tier,
            tick_spacing,
            current_tick,
            sqrt_price_x96: initial_sqrt_price,
            liquidity: initial_liquidity,
            reinvestment_liquidity: 0,
            tick_bitmap: HashMap::new(),
            tick_liquidity: HashMap::new(),
            initialized_ticks: HashSet::new(),
            last_update_block: 0,
        }
    }

    /// Sets the price and its tick. The price is set even where it has no tick; the tick then
    /// stays as it was.
    pub fn update_price(&mut self, new_sqrt_price: U256) -> (r: Result<(), String>)
        ensures
            final(self)@ == priced(old(self)@, new_sqrt_price@),
            match kyber_tick_spec(new_sqrt_price@) {
                Ok(_) => r is Ok,
                Err(e) => r matches Err(text) && text@ == e.message(),
            },
            r is Ok <==> min_sqrt_ratio() <= new_sqrt_price@ < max_sqrt_ratio(),
            r is Ok ==> is_tick_of(final(self).current_tick as int, new_sqrt_price@),
            r is Err ==> final(self).current_tick == old(self).current_tick,
    {
        self.sqrt_price_x96 = new_sqrt_price;
        match get_tick_at_sqrt_ratio(new_sqrt_price) {
            Ok(t) => {
                self.current_tick = t;
                Ok(())
            },
            Err(e) => Err(e.message()),
        }
    }

    /// Whether a tick is initialized.
    pub fn is_tick_initialized(&self, tick: i32) -> (r: bool)
        ensures
            r == self@.initialized_ticks.contains(tick),
    {
        self.initialized_ticks.contains(&tick)
    }

    /// The liquidity change at a tick, zero where none is recorded.
    pub fn get_tick_liquidity(&self, tick: i32) -> (r: i128)
        ensures
            r == net_at(self@.tick_liquidity, tick),
    {
        match self.tick_liquidity.get(&tick) {
            Some(v) => *v,
            None => 0,
        }
    }

    /// Initializes a tick range with a change of its liquidity.
    pub fn initialize_tick_range(
        &mut self,
        tick_lower: i32,
        tick_upper: i32,
        liquidity_delta: i128,
    )
        ensures
            range_initialized(
                old(self)@,
                tick_lower,
                tick_upper,
                liquidity_delta as int,
                final(self)@,
            ),
    {
        let ghost before = self.tick_bitmap@;
        self.mark_tick(tick_lower);
        let ghost between = self.tick_bitmap@;
        self.mark_tick(tick_upper);
        let lower: i128 = self.get_tick_liquidity(tick_lower);
        self.tick_liquidity.insert(tick_lower, add_saturated(lower, liquidity_delta));
        let upper: i128 = self.get_tick_liquidity(tick_upper);
        self.tick_liquidity.insert(tick_upper, sub_saturated(upper, liquidity_delta));
        self.initialized_ticks.insert(tick_lower);
        self.initialized_ticks.insert(tick_upper);
        proof {
            assert(marks(before, tick_lower, between));
        }
    }

    /// Sets the bit of a tick.
    fn mark_tick(&mut self, tick: i32)
        ensures
            marks(old(self)@.tick_bitmap, tick, final(self)@.tick_bitmap),
            final(self)@ == (KyberPoolView {
                tick_bitmap: final(self)@.tick_bitmap,
                ..old(self)@
            }),
    {
        let word: i32 = tick >> 8;
        assert(256 * (tick >> 8) <= tick < 256 * (tick >> 8) + 256) by (bit_vector);
        let size: i64 = if tick < 0 {
            -(tick as i64)
        } else {
            tick as i64
        };
        let position: usize = (size % 256) as usize;
        let current = match self.tick_bitmap.get(&word) {
            Some(w) => *w,
            None => U256::zero(),
        };
        let mask = U256::from_u64(1).primitive_shl(position);
        proof {
            lemma_pow2_strictly_increases(position as nat, 256);
            lemma_limit_is_pow2();
            vstd::arithmetic::div_mod::lemma_small_mod(pow2(position as nat), u256_limit());
            assert(mask@ == pow2(bit_of(tick)));
        }
        self.tick_bitmap.insert(word, current.primitive_or(mask));
    }
}

/// A pool at a price, without any tick.
pub open spec fn initial_pool(
    pool_address: Address,
    token0: Address,
    token1: Address,
    fee_tier: u32,
    tick_spacing: i32,
    price: nat,
    liquidity: u128,
) -> KyberPoolView {
    KyberPoolView {
        pool_address,
        token0,
        token1,
        fee_tier,
        tick_spacing,
        current_tick: match kyber_tick_spec(price) {
            Ok(t) => t as i32,
            Err(_) => 0,
        },
        sqrt_price_x96: price,
        liquidity,
        reinvestment_liquidity: 0,
        tick_bitmap: Map::empty(),
        tick_liquidity: Map::empty(),
        initialized_ticks: Set::empty(),
        last_update_block: 0,
    }
}

/// A pool at another price, with the tick of the price where it has one.
pub open spec fn priced(pool: KyberPoolView, price: nat) -> KyberPoolView {
    KyberPoolView {
        sqrt_price_x96: price,
        current_tick: match kyber_tick_spec(price) {
            Ok(t) => t as i32,
            Err(_) => pool.current_tick,
        },
        ..pool
    }
}

/// A marked tick has its bit set; every other bit of its word, and every other word, is as it
/// was.
pub proof fn law_mark_sets_one_bit(
    before: Map<i32, U256>,
    tick: i32,
    after: Map<i32, U256>,
    word: i32,
    i: nat,
)
    requires
        marks(before, tick, after),
        i < 256,
    ensures
        bit(word_at(after, word), i) == (bit(word_at(before, word), i) || (word == word_of(tick)
            && i == bit_of(tick))),
{
    lemma_bit_of_power(bit_of(tick), i);
}

/// The states of all tracked pools.
#[derive(Debug)]
pub struct KyberPoolStateManager {
    pools: AddressTable<KyberPoolState>,
}

impl View for KyberPoolStateManager {
    type V = Map<Address, KyberPoolView>;

    closed spec fn view(&self) -> Map<Address, KyberPoolView> {
        self.pools@.map_values(|s: KyberPoolState| s@)
    }
}

/// The refusal of a pool that is not tracked.
pub open spec fn not_found(pool: Address) -> Seq<char> {
    "Pool "@ + pool.short_text() + " not found"@
}

fn pool_not_found(pool: Address) -> (r: String)
    ensures
        r@ == not_found(pool),
{
    "Pool ".to_owned().concat(pool.to_short_text().as_str()).concat(" not found")
}

/// The tick spacing of a fee in basis points.
pub open spec fn kyber_tick_spacing(fee_tier: u32) -> i32 {
    if fee_tier == 1 {
        1
    } else if fee_tier == 5 {
        10
    } else if fee_tier == 8 {
        15
    } else if fee_tier == 10 {
        20
    } else if fee_tier == 25 {
        50
    } else if fee_tier == 40 {
        80
    } else if fee_tier == 50 {
        100
    } else if fee_tier == 100 {
        200
    } else {
        50
    }
}

/// Whether a tick is a multiple of the spacing.
pub open spec fn aligned(tick: i32, spacing: i32) -> bool {
    spacing != 0 && magnitude(tick as int) % magnitude(spacing as int) == 0
}

/// A 128-bit number read as a signed one.
pub open spec fn signed_word_of(amount: u128) -> int {
    if amount <= i128::MAX {
        amount as int
    } else {
        amount - 0x1_0000_0000_0000_0000_0000_0000_0000_0000int
    }
}

/// The liquidity after liquidity was added to a range, or the refusal. An amount that an `i128`
/// does not hold is refused as one of the wrong sign.
pub open spec fn mint_outcome(pool: KyberPoolView, lower: i32, upper: i32, amount: u128) -> Result<
    nat,
    Seq<char>,
> {
    if lower >= upper || lower < MIN_TICK || upper > MAX_TICK {
        Err("Invalid tick range"@)
    } else if !aligned(lower, pool.tick_spacing) || !aligned(upper, pool.tick_spacing) {
        Err("Ticks not aligned with spacing"@)
    } else {
        match liquidity_delta_spec(
            pool.liquidity as nat,
            signed_word_of(amount),
            true,
        ) {
            Ok(l) => Ok(l),
            Err(e) => Err(e.message()),
        }
    }
}

/// The signed change that takes an amount of liquidity away, in 128 bits.
pub open spec fn burn_delta(amount: u128) -> int {
    if amount <= 0x8000_0000_0000_0000_0000_0000_0000_0000 {
        -(amount as int)
    } else {
        0x1_0000_0000_0000_0000_0000_0000_0000_0000int - amount
    }
}

/// The liquidity after liquidity was removed, or the refusal.
pub open spec fn burn_outcome(pool: KyberPoolView, amount: u128) -> Result<nat, Seq<char>> {
    match liquidity_delta_spec(pool.liquidity as nat, burn_delta(amount), false) {
        Ok(l) => Ok(l),
        Err(e) => Err(e.message()),
    }
}

/// What a swap uses and returns, and the price it ends at; or the refusal.
pub open spec fn swap_outcome(pool: KyberPoolView, amount_specified: int, limit: nat) -> Result<
    (int, int, nat),
    Seq<char>,
> {
    match kyber_step_spec(
        pool.liquidity as nat,
        pool.sqrt_price_x96,
        limit,
        pool.fee_tier as nat,
        amount_specified,
        true,
    ) {
        Err(e) => Err(e.message()),
        Ok(step) => Ok((step.used, step.returned, step.next)),
    }
}

/// Whether a tick is a multiple of the spacing.
fn is_aligned(tick: i32, spacing: i32) -> (r: bool)
    ensures
        r == aligned(tick, spacing),
{
    if spacing == 0 {
        return false;
    }
    let t: i64 = if tick < 0 {
        -(tick as i64)
    } else {
        tick as i64
    };
    let s: i64 = if spacing < 0 {
        -(spacing as i64)
    } else {
        spacing as i64
    };
    t % s == 0
}

impl KyberPoolStateManager {
    /// No pool is tracked twice.
    pub closed spec fn wf(&self) -> bool {
        self.pools.wf()
    }

    /// A manager that tracks no pool.
    pub fn new() -> (r: KyberPoolStateManager)
        ensures
            r.wf(),
            r@ == Map::<Address, KyberPoolView>::empty(),
    {
        let r = KyberPoolStateManager { pools: AddressTable::new() };
        assert(r@ =~= Map::<Address, KyberPoolView>::empty());
        r
    }

    /// Starts to track a pool at a price.
    pub fn initialize_pool(
        &mut self,
        pool_address: Address,
        token0: Address,
        token1: Address,
        fee_tier: u32,
        initial_sqrt_price: U256,
        initial_liquidity: u128,
    ) -> (r: Result<(), String>)
        requires
            old(self).wf(),
        ensures
            r is Ok,
            final(self).wf(),
            final(self)@ == old(self)@.insert(
                pool_address,
                initial_pool(
                    pool_address,
                    token0,
                    token1,
                    fee_tier,
                    kyber_tick_spacing(fee_tier),
                    initial_sqrt_price@,
                    initial_liquidity,
                ),
            ),
    {
        let tick_spacing: i32 = Self::fee_to_tick_spacing(fee_tier);
        let state = KyberPoolState::new(
            pool_address,
            token0,
            token1,
            fee_tier,
            tick_spacing,
            initial_sqrt_price,
            initial_liquidity,
        );
        self.insert_pool(pool_address, state);
        Ok(())
    }

    /// Records that liquidity was added to a tick range of a pool.
    pub fn process_mint_event(
        &mut self,
        pool: Address,
        tick_lower: i32,
        tick_upper: i32,
        amount: u128,
    ) -> (r: Result<(), String>)
        requires
            old(self).wf(),
        ensures
            final(self).wf(),
            !old(self)@.contains_key(pool) ==> (r matches Err(e) && e@ == not_found(pool)),
            old(self)@.contains_key(pool) ==> match mint_outcome(
                old(self)@[pool],
                tick_lower,
                tick_upper,
                amount,
            ) {
                Err(text) => r matches Err(e) && e@ == text,
                Ok(liquidity) => r is Ok && final(self)@.contains_key(pool) && range_initialized(
                    KyberPoolView { liquidity: liquidity as u128, ..old(self)@[pool] },
                    tick_lower,
                    tick_upper,
                    amount as int,
                    final(self)@[pool],
                ) && final(self)@ == old(self)@.insert(pool, final(self)@[pool]),
            },
            r is Err ==> final(self)@ == old(self)@,
    {
        match self.pools.get_mut(&pool) {
            None => Err(pool_not_found(pool)),
            Some(state) => record_mint(state, tick_lower, tick_upper, amount),
        }
    }

    /// Records that liquidity was removed from a tick range of a pool.
    pub fn process_burn_event(
        &mut self,
        pool: Address,
        tick_lower: i32,
        tick_upper: i32,
        amount: u128,
    ) -> (r: Result<(), String>)
        requires
            old(self).wf(),
        ensures
            final(self).wf(),
            !old(self)@.contains_key(pool) ==> (r matches Err(e) && e@ == not_found(pool)),
            old(self)@.contains_key(pool) ==> match burn_outcome(old(self)@[pool], amount) {
                Err(text) => r matches Err(e) && e@ == text,
                Ok(liquidity) => r is Ok && final(self)@.contains_key(pool) && range_initialized(
                    KyberPoolView { liquidity: liquidity as u128, ..old(self)@[pool] },
                    tick_lower,
                    tick_upper,
                    -(amount as int),
                    final(self)@[pool],
                ) && final(self)@ == old(self)@.insert(pool, final(self)@[pool]),
            },
            r is Err ==> final(self)@ == old(self)@,
    {
        match self.pools.get_mut(&pool) {
            None => Err(pool_not_found(pool)),
            Some(state) => record_burn(state, tick_lower, tick_upper, amount),
        }
    }

    /// Records that fees were collected: they count as reinvested liquidity.
    pub fn process_collect_event(
        &mut self,
        pool: Address,
        _tick_lower: i32,
        _tick_upper: i32,
        amount0_requested: u128,
        amount1_requested: u128,
    ) -> (r: Result<(), String>)
        requires
            old(self).wf(),
            old(self)@.contains_key(pool) ==> old(self)@[pool].reinvestment_liquidity
                + amount0_requested + amount1_requested <= u128::MAX,
        ensures
            final(self).wf(),
            !old(self)@.contains_key(pool) ==> (r matches Err(e) && e@ == not_found(pool))
                && final(self)@ == old(self)@,
            old(self)@.contains_key(pool) ==> r is Ok && final(self)@ == old(self)@.insert(
                pool,
                KyberPoolView {
                    reinvestment_liquidity: (old(self)@[pool].reinvestment_liquidity
                        + amount0_requested + amount1_requested) as u128,
                    ..old(self)@[pool]
                },
            ),
    {
        match self.pools.get_mut(&pool) {
            None => Err(pool_not_found(pool)),
            Some(state) => {
                state.reinvestment_liquidity = state.reinvestment_liquidity + (amount0_requested
                    + amount1_requested);
                Ok(())
            },
        }
    }

    /// The state of a pool.
    pub fn get_pool_state(&self, pool: Address) -> (r: Option<KyberPoolState>)
        requires
            self.wf(),
        ensures
            match r {
                Some(s) => self@.contains_key(pool) && s@ == self@[pool],
                None => !self@.contains_key(pool),
            },
    {
        match self.pools.get(&pool) {
            Some(s) => Some(s.clone()),
            None => None,
        }
    }

    /// Whether a pool is tracked.
    pub fn is_pool_tracked(&self, pool: Address) -> (r: bool)
        requires
            self.wf(),
        ensures
            r == self@.contains_key(pool),
    {
        self.pools.contains(&pool)
    }

    /// Stops tracking every pool.
    pub fn clear_all(&mut self)
        ensures
            final(self).wf(),
            final(self)@ == Map::<Address, KyberPoolView>::empty(),
    {
        self.pools.clear();
        assert(self@ =~= Map::<Address, KyberPoolView>::empty());
    }

    /// The states of all pools with their addresses.
    pub fn get_all_pools(&self) -> (r: Vec<(Address, KyberPoolState)>)
        requires
            self.wf(),
        ensures
            distinct(r@),
            forall|i: int|
                0 <= i < r@.len() ==> self@.contains_key((#[trigger] r@[i]).0) && r@[i].1@
                    == self@[r@[i].0],
            forall|a: Address|
                self@.contains_key(a) ==> exists|i: int|
                    0 <= i < r@.len() && (#[trigger] r@[i]).0 == a,
    {
        let all = self.pools.addresses();
        let mut out: Vec<(Address, KyberPoolState)> = Vec::new();
        let mut i: usize = 0;
        proof {
            assert forall|k: int| 0 <= k < all@.len() implies self@.contains_key(
                #[trigger] all@[k],
            ) by {
                assert(all@.to_set().contains(all@[k]));
            }
        }
        while i < all.len()
            invariant
                self.wf(),
                i <= all@.len(),
                all@.no_duplicates(),
                forall|k: int| 0 <= k < all@.len() ==> self@.contains_key(#[trigger] all@[k]),
                out@.len() == i,
                forall|k: int|
                    0 <= k < i ==> (#[trigger] out@[k]).0 == all@[k] && out@[k].1@
                        == self@[all@[k]],
            decreases all@.len() - i,
        {
            let address = all[i];
            match self.pools.get(&address) {
                Some(s) => out.push((address, s.clone())),
                None => {
                    assert(false);
                },
            }
            i = i + 1;
        }
        proof {
            assert forall|a: Address| self@.contains_key(a) implies exists|i: int|
                0 <= i < out@.len() && (#[trigger] out@[i]).0 == a by {
                assert(all@.to_set().contains(a));
                let m = choose|m: int| 0 <= m < all@.len() && all@[m] == a;
                assert(out@[m].0 == a);
            }
        }
        out
    }

    /// The states of all pools.
    pub fn iter_pools(&self) -> (r: Vec<KyberPoolState>)
        requires
            self.wf(),
        ensures
            exists|order: Seq<Address>|
                {
                    &&& #[trigger] order.no_duplicates()
                    &&& order.to_set() == self@.dom()
                    &&& r@.len() == order.len()
                    &&& forall|i: int| 0 <= i < r@.len() ==> (#[trigger] r@[i])@ == self@[order[i]]
                },
    {
        let all = self.pools.addresses();
        let mut out: Vec<KyberPoolState> = Vec::new();
        let mut i: usize = 0;
        proof {
            assert forall|k: int| 0 <= k < all@.len() implies self@.contains_key(
                #[trigger] all@[k],
            ) by {
                assert(all@.to_set().contains(all@[k]));
            }
        }
        while i < all.len()
            invariant
                self.wf(),
                i <= all@.len(),
                forall|k: int| 0 <= k < all@.len() ==> self@.contains_key(#[trigger] all@[k]),
                out@.len() == i,
                forall|k: int| 0 <= k < i ==> (#[trigger] out@[k])@ == self@[all@[k]],
            decreases all@.len() - i,
        {
            let address = all[i];
            match self.pools.get(&address) {
                Some(s) => out.push(s.clone()),
                None => {
                    assert(false);
                },
            }
            i = i + 1;
        }
        proof {
            assert(all@.to_set() =~= self@.dom());
            assert(all@.no_duplicates());
        }
        out
    }

    /// Computes what a swap uses and returns, and moves the pool to the price it ends at.
    pub fn calculate_swap_amount(
        &mut self,
        pool: Address,
        zero_for_one: bool,
        amount_specified: i128,
        sqrt_price_limit_x96: U256,
    ) -> (r: Result<(i128, i128), String>)
        requires
            old(self).wf(),
        ensures
            final(self).wf(),
            !old(self)@.contains_key(pool) ==> (r matches Err(e) && e@ == not_found(pool))
                && final(self)@ == old(self)@,
            old(self)@.contains_key(pool) ==> match swap_outcome(
                old(self)@[pool],
                amount_specified as int,
                sqrt_price_limit_x96@,
            ) {
                Err(text) => (r matches Err(e) && e@ == text) && final(self)@ == old(self)@,
                Ok((used, returned, next)) => {
                    &&& final(self)@ == old(self)@.insert(pool, priced(old(self)@[pool], next))
                    &&& match kyber_tick_spec(next) {
                        Ok(_) => r matches Ok(v) && v.0 == used && v.1 == returned,
                        Err(e) => r matches Err(text) && text@ == e.message(),
                    }
                },
            },
            r is Ok ==> is_tick_of(
                final(self)@[pool].current_tick as int,
                final(self)@[pool].sqrt_price_x96,
            ),
            r is Ok && amount_specified != 0 ==> is_leg(
                step_leg(
                    old(self)@[pool].sqrt_price_x96,
                    sqrt_price_limit_x96@,
                    old(self)@[pool].liquidity as nat,
                    magnitude(amount_specified as int),
                    final(self)@[pool].sqrt_price_x96,
                    r->Ok_0.0 as nat,
                    (-r->Ok_0.1) as nat,
                ),
                old(self)@[pool].fee_tier as nat,
                old(self)@[pool].sqrt_price_x96 >= sqrt_price_limit_x96@,
                Charge::Included,
            ),
    {
        match self.pools.get_mut(&pool) {
            None => Err(pool_not_found(pool)),
            Some(state) => {
                let step = match compute_swap_step(
                    state.liquidity,
                    state.sqrt_price_x96,
                    sqrt_price_limit_x96,
                    state.fee_tier,
                    amount_specified,
                    true,
                    zero_for_one,
                ) {
                    Ok(v) => v,
                    Err(e) => return Err(e.message()),
                };
                match state.update_price(step.next_sqrt_p) {
                    Ok(_) => Ok((step.used_amount, step.returned_amount)),
                    Err(e) => Err(e),
                }
            },
        }
    }

    /// The tick spacing of a fee in basis points.
    pub fn fee_to_tick_spacing(fee_tier: u32) -> (r: i32)
        ensures
            r == kyber_tick_spacing(fee_tier),
    {
        match fee_tier {
            1 => 1,
            5 => 10,
            8 => 15,
            10 => 20,
            25 => 50,
            40 => 80,
            50 => 100,
            100 => 200,
            _ => 50,
        }
    }

    /// Tracks a pool with a state that was built before.
    pub fn insert_pool(&mut self, pool_address: Address, state: KyberPoolState)
        requires
            old(self).wf(),
        ensures
            final(self).wf(),
            final(self)@ == old(self)@.insert(pool_address, state@),
    {
        self.pools.insert(pool_address, state);
        assert(self@ =~= old(self)@.insert(pool_address, state@));
    }
}

/// Records that liquidity was added to a tick range.
fn record_mint(state: &mut KyberPoolState, tick_lower: i32, tick_upper: i32, amount: u128) -> (r:
    Result<(), String>)
    ensures
        match mint_outcome(old(state)@, tick_lower, tick_upper, amount) {
            Err(text) => (r matches Err(e) && e@ == text) && *final(state) == *old(state),
            Ok(liquidity) => r is Ok && range_initialized(
                KyberPoolView { liquidity: liquidity as u128, ..old(state)@ },
                tick_lower,
                tick_upper,
                amount as int,
                final(state)@,
            ),
        },
{
    if tick_lower >= tick_upper || tick_lower < MIN_TICK || tick_upper > MAX_TICK {
        return Err("Invalid tick range".to_owned());
    }
    if !is_aligned(tick_lower, state.tick_spacing) || !is_aligned(tick_upper, state.tick_spacing) {
        return Err("Ticks not aligned with spacing".to_owned());
    }
    let delta: i128 = signed_word(amount);
    match apply_liquidity_delta(state.liquidity, delta, true) {
        Err(e) => Err(e.message()),
        Ok(liquidity) => {
            state.liquidity = liquidity;
            state.initialize_tick_range(tick_lower, tick_upper, delta);
            Ok(())
        },
    }
}

/// Records that liquidity was removed from a tick range.
fn record_burn(state: &mut KyberPoolState, tick_lower: i32, tick_upper: i32, amount: u128) -> (r:
    Result<(), String>)
    ensures
        match burn_outcome(old(state)@, amount) {
            Err(text) => (r matches Err(e) && e@ == text) && *final(state) == *old(state),
            Ok(liquidity) => r is Ok && range_initialized(
                KyberPoolView { liquidity: liquidity as u128, ..old(state)@ },
                tick_lower,
                tick_upper,
                -(amount as int),
                final(state)@,
            ),
        },
{
    let word: i128 = signed_word(amount);
    let delta: i128 = if word == i128::MIN {
        i128::MIN
    } else {
        -word
    };
    match apply_liquidity_delta(state.liquidity, delta, false) {
        Err(e) => Err(e.message()),
        Ok(liquidity) => {
            state.liquidity = liquidity;
            state.initialize_tick_range(tick_lower, tick_upper, delta);
            Ok(())
        },
    }
}

/// A 128-bit number read as a signed one.
fn signed_word(amount: u128) -> (r: i128)
    ensures
        r == signed_word_of(amount),
{
    if amount <= i128::MAX as u128 {
        amount as i128
    } else {
        -((u128::MAX - amount) as i128) - 1
    }
}

/// To remove from a range what was just added to it leaves the active liquidity and the
/// liquidity change of every tick as they were, where no change had to be held within its range.
pub proof fn law_burn_undoes_mint(
    before: KyberPoolView,
    lower: i32,
    upper: i32,
    amount: u128,
    minted: KyberPoolView,
    burned: KyberPoolView,
)
    requires
        amount <= i128::MAX,
        net_at(before.tick_liquidity, lower) + amount <= i128::MAX,
        net_at(before.tick_liquidity, upper) - amount >= i128::MIN,
        mint_outcome(before, lower, upper, amount) is Ok,
        range_initialized(
            KyberPoolView {
                liquidity: mint_outcome(before, lower, upper, amount)->Ok_0 as u128,
                ..before
            },
            lower,
            upper,
            amount as int,
            minted,
        ),
        burn_outcome(minted, amount) matches Ok(liquidity) ==> range_initialized(
            KyberPoolView { liquidity: liquidity as u128, ..minted },
            lower,
            upper,
            -(amount as int),
            burned,
        ),
    ensures
        burn_outcome(minted, amount) == Ok::<nat, Seq<char>>(before.liquidity as nat),
        burned.liquidity == before.liquidity,
        forall|tick: i32|
            net_at(burned.tick_liquidity, tick) == #[trigger] net_at(before.tick_liquidity, tick),
{
    law_remove_undoes_add(before.liquidity, amount as i128);
}

/// Liquidity is added to a range exactly where the range is one of ticks in their range and on the
/// spacing of the pool, and the amount and the sum are numbers that the pool can hold; the active
/// liquidity then grows by the amount.
pub proof fn law_mint_adds_its_amount(pool: KyberPoolView, lower: i32, upper: i32, amount: u128)
    ensures
        mint_outcome(pool, lower, upper, amount) is Ok <==> {
            &&& -887272 <= lower < upper <= 887272
            &&& pool.tick_spacing != 0
            &&& lower as int % pool.tick_spacing as int == 0
            &&& upper as int % pool.tick_spacing as int == 0
            &&& amount <= i128::MAX
            &&& pool.liquidity + amount <= u128::MAX
        },
        mint_outcome(pool, lower, upper, amount) matches Ok(after) ==> after == pool.liquidity
            + amount,
{
    if pool.tick_spacing != 0 {
        lemma_aligned_is_multiple(lower, pool.tick_spacing);
        lemma_aligned_is_multiple(upper, pool.tick_spacing);
    }
}

/// A tick is aligned where it is a multiple of the spacing.
proof fn lemma_aligned_is_multiple(tick: i32, spacing: i32)
    requires
        spacing != 0,
    ensures
        aligned(tick, spacing) <==> tick as int % spacing as int == 0,
{
    let (t, s) = (tick as int, spacing as int);
    let (mt, ms) = (magnitude(t) as int, magnitude(s) as int);
    assert(t % s == t % ms) by (nonlinear_arith)
        requires
            ms == s || ms == -s,
            s != 0,
    ;
    assert(mt % ms == 0 <==> t % ms == 0) by {
        vstd::arithmetic::div_mod::lemma_fundamental_div_mod(t, ms);
        vstd::arithmetic::div_mod::lemma_fundamental_div_mod(mt, ms);
        if t < 0 {
            if t % ms == 0 {
                let q = t / ms;
                assert(mt == (-q) * ms) by (nonlinear_arith)
                    requires
                        t == ms * q,
                        mt == -t,
                ;
                vstd::arithmetic::div_mod::lemma_mod_multiples_basic(-q, ms);
            }
            if mt % ms == 0 {
                let q = mt / ms;
                assert(t == (-q) * ms) by (nonlinear_arith)
                    requires
                        mt == ms * q,
                        mt == -t,
                ;
                vstd::arithmetic::div_mod::lemma_mod_multiples_basic(-q, ms);
            }
        }
    }
}

/// Liquidity is removed exactly where there is enough of it, and as much as the event says.
pub proof fn law_burn_takes_its_amount(pool: KyberPoolView, amount: u128)
    ensures
        burn_outcome(pool, amount) is Ok <==> amount <= pool.liquidity && amount
            <= 0x8000_0000_0000_0000_0000_0000_0000_0000,
        burn_outcome(pool, amount) matches Ok(after) ==> after + amount == pool.liquidity,
{
}

/// A change of liquidity in a range is added at its lower tick and taken away at its upper tick,
/// held within the signed 128-bit numbers; every other tick keeps its change, both ticks are
/// initialized, and price, fee and active liquidity stay.
pub proof fn law_range_changes_its_two_ticks(
    before: KyberPoolView,
    lower: i32,
    upper: i32,
    delta: int,
    after: KyberPoolView,
    tick: i32,
)
    requires
        range_initialized(before, lower, upper, delta, after),
        lower != upper,
    ensures
        after.liquidity == before.liquidity,
        after.sqrt_price_x96 == before.sqrt_price_x96,
        after.current_tick == before.current_tick,
        after.fee_tier == before.fee_tier,
        after.tick_spacing == before.tick_spacing,
        after.initialized_ticks.contains(tick) <==> before.initialized_ticks.contains(tick) || tick
            == lower || tick == upper,
        ({
            let change = if tick == lower {
                delta
            } else if tick == upper {
                -delta
            } else {
                0
            };
            let sum = net_at(before.tick_liquidity, tick) + change;
            let now = net_at(after.tick_liquidity, tick);
            &&& i128::MIN <= sum <= i128::MAX ==> now == sum
            &&& sum > i128::MAX ==> now == i128::MAX
            &&& sum < i128::MIN ==> now == i128::MIN
        }),
{
}

/// The tick spacing of the known fees is twice the fee in basis points, and one less for one and for
/// eight basis points; every other fee has the spacing of 25.
pub proof fn law_tick_spacing_follows_the_fee(fee_tier: u32)
    ensures
        fee_tier == 5 || fee_tier == 10 || fee_tier == 25 || fee_tier == 40 || fee_tier == 50
            || fee_tier == 100 ==> kyber_tick_spacing(fee_tier) == 2 * fee_tier,
        fee_tier == 1 || fee_tier == 8 ==> kyber_tick_spacing(fee_tier) == 2 * fee_tier - 1,
        !(fee_tier == 1 || fee_tier == 5 || fee_tier == 8 || fee_tier == 10 || fee_tier == 25
            || fee_tier == 40 || fee_tier == 50 || fee_tier == 100) ==> kyber_tick_spacing(
            fee_tier,
        ) == 50,
{
}

/// A tick lies in the word of the 256 ticks around it, and at or above zero its bit is its place
/// there; below zero it is that of the tick as far above zero.
pub proof fn law_tick_has_its_bit(tick: i32)
    ensures
        word_of(tick) * 256 <= tick < word_of(tick) * 256 + 256,
        bit_of(tick) < 256,
        tick >= 0 ==> word_of(tick) * 256 + bit_of(tick) == tick,
        tick < 0 && tick > i32::MIN ==> bit_of(tick) == bit_of((-tick) as i32),
{
}

} // verus!
