//! Active liquidity across an initialized tick.

use vstd::prelude::*;

verus! {

/// The liquidity on the other side of a tick: the tick's entry is added where the price rises
/// and taken away where it falls.
pub open spec fn crossed(liquidity: nat, net: int, down: bool) -> int {
    if down {
        liquidity - net
    } else {
        liquidity + net
    }
}

/// The sum of the entries of a list of ticks.
pub open spec fn net_sum(net: Map<i32, i128>, ticks: Seq<i32>) -> int
    decreases ticks.len(),
{
    if ticks.len() == 0 {
        0
    } else {
        net_sum(net, ticks.drop_last()) + net[ticks.last()]
    }
}

/// Whether a liquidity is what crossing a list of ticks leaves of another: every tick has an
/// entry, and the entries are added where the price rises and taken away where it falls. Both
/// liquidities are numbers that an `i128` holds, where a tick is crossed.
pub open spec fn accounts_for(
    net: Map<i32, i128>,
    before: nat,
    after: nat,
    ticks: Seq<i32>,
    down: bool,
) -> bool {
    &&& forall|k: int| 0 <= k < ticks.len() ==> net.dom().contains(#[trigger] ticks[k])
    &&& if ticks.len() == 0 {
        after == before
    } else {
        &&& before <= i128::MAX
        &&& after <= i128::MAX
        &&& after == if down {
            before - net_sum(net, ticks)
        } else {
            before + net_sum(net, ticks)
        }
    }
}

/// One more crossed tick is accounted for.
pub proof fn lemma_one_more_crossing(
    net: Map<i32, i128>,
    before: nat,
    after: nat,
    ticks: Seq<i32>,
    tick: i32,
    down: bool,
)
    requires
        accounts_for(net, before, after, ticks, down),
        net.dom().contains(tick),
        after <= i128::MAX,
        0 <= crossed(after, net[tick] as int, down) <= i128::MAX,
    ensures
        accounts_for(
            net,
            before,
            crossed(after, net[tick] as int, down) as nat,
            ticks.push(tick),
            down,
        ),
{
    let more = ticks.push(tick);
    assert(more.drop_last() =~= ticks);
    assert(more.last() == tick);
    assert(net_sum(net, more) == net_sum(net, ticks) + net[tick]);
    if ticks.len() == 0 {
        assert(net_sum(net, ticks) == 0);
    }
    assert forall|k: int| 0 <= k < more.len() implies net.dom().contains(#[trigger] more[k]) by {
        if k < ticks.len() {
            assert(more[k] == ticks[k]);
        }
    }
}

/// What crossing a tick leaves.
#[derive(Clone, Copy, PartialEq, Eq, Structural)]
pub enum Crossing {
    /// The liquidity falls below zero.
    Negative,
    /// The liquidity is outside the range of a signed 128-bit integer, on one side or the other.
    TooLarge,
    /// The liquidity on the other side.
    Liquidity(u128),
}

/// Applies a tick's entry to the active liquidity.
pub fn cross_tick(liquidity: u128, net: i128, down: bool) -> (r: Crossing)
    ensures
        match r {
            Crossing::Negative => liquidity <= i128::MAX && crossed(
                liquidity as nat,
                net as int,
                down,
            ) < 0,
            Crossing::TooLarge => liquidity > i128::MAX || crossed(
                liquidity as nat,
                net as int,
                down,
            ) > i128::MAX,
            Crossing::Liquidity(l) => liquidity <= i128::MAX && l == crossed(
                liquidity as nat,
                net as int,
                down,
            ) && l <= i128::MAX,
        },
{
    let size: u128 = if net >= 0 {
        net as u128
    } else {
        (-(net + 1)) as u128 + 1
    };
    let grows: bool = (net < 0) == down;
    if liquidity > i128::MAX as u128 {
        Crossing::TooLarge
    } else if grows {
        if size > i128::MAX as u128 - liquidity {
            Crossing::TooLarge
        } else {
            Crossing::Liquidity(liquidity + size)
        }
    } else {
        if size > liquidity {
            Crossing::Negative
        } else {
            Crossing::Liquidity(liquidity - size)
        }
    }
}

} // verus!
