//! Swaps as walks from range to range: what every range takes and pays, in plain arithmetic.
//!
//! A swap stands at a price with some active liquidity, some input left and some output paid so
//! far. Each range moves it on: the price goes in the direction of the swap and not past the tick
//! ahead, the output grows by what lies between the two prices at the liquidity of the range, and
//! the input shrinks by what covers that, with the fee. Between two ranges a tick is crossed.

use crate::dex::clmm::{
    div_up, given_between, next_price_spec, q96, sqrt_ratio_at, taken_between, tick_in_range,
    MAX_TICK, MIN_TICK,
};
use vstd::arithmetic::div_mod::lemma_fundamental_div_mod;
use vstd::prelude::*;

verus! {

/// Where a swap stands.
#[verifier::ext_equal]
pub struct Stand {
    pub price: nat,
    pub liquidity: nat,
    pub left: nat,
    pub out: nat,
}

/// A move through one range, towards the price `goal` of the tick ahead.
#[verifier::ext_equal]
pub struct Leg {
    pub from: Stand,
    pub to: Stand,
    pub goal: nat,
}

/// How a range takes its fee.
pub enum Charge {
    /// The fee is a share of what the range takes, and the range reaches the tick ahead where the
    /// rest covers it.
    Included,
    /// The range takes at most what the way to the tick ahead costs without a fee, and the fee is
    /// a share of that.
    Deducted,
}

/// Whether `out` is what a pool of that liquidity pays while the price moves: token 1 is paid while
/// it falls, `L * (before - after) / 2^96`, and token 0 while it rises,
/// `L * 2^96 * (after - before) / (before * after)`, both rounded down.
pub open spec fn pays(before: nat, after: nat, liquidity: nat, down: bool, out: nat) -> bool {
    if down {
        &&& after <= before
        &&& out * q96() <= liquidity * (before - after) < (out + 1) * q96()
    } else {
        &&& before <= after
        &&& out * (before * after) <= liquidity * q96() * (after - before) < (out + 1) * (before
            * after)
    }
}

/// Whether `amount` covers what a pool of that liquidity takes while the price moves: token 0 while
/// it falls, token 1 while it rises.
pub open spec fn covers(before: nat, after: nat, liquidity: nat, down: bool, amount: nat) -> bool {
    if down {
        &&& after <= before
        &&& liquidity * q96() * (before - after) <= amount * (before * after)
    } else {
        &&& before <= after
        &&& liquidity * (after - before) <= amount * q96()
    }
}

/// Whether a price is not past another one in the direction of a swap.
pub open spec fn not_past(price: nat, other: nat, down: bool) -> bool {
    if down {
        other <= price
    } else {
        price <= other
    }
}

/// Whether a leg takes its input as it should, at a fee in basis points.
pub open spec fn charges(leg: Leg, fee_bps: nat, down: bool, charge: Charge) -> bool {
    let (a, b) = (leg.from, leg.to);
    let taken = (a.left - b.left) as nat;
    match charge {
        Charge::Included => {
            let net = taken * ((10_000 - fee_bps) as nat) / 10_000;
            &&& covers(a.price, b.price, a.liquidity, down, net)
            &&& b.price != leg.goal ==> b.left == 0 && next_price_spec(
                a.price,
                a.liquidity,
                net,
                down,
            ) == Ok::<nat, Seq<char>>(b.price)
            &&& b.price == leg.goal && taken > 0 ==> !covers(
                a.price,
                b.price,
                a.liquidity,
                down,
                ((taken - 1) as nat) * ((10_000 - fee_bps) as nat) / 10_000,
            )
        },
        Charge::Deducted => {
            let net = (taken - taken * fee_bps / 10_000) as nat;
            &&& next_price_spec(a.price, a.liquidity, net, down) == Ok::<nat, Seq<char>>(b.price)
            &&& b.left > 0 ==> covers(a.price, leg.goal, a.liquidity, down, taken)
            &&& taken > 0 ==> !covers(
                a.price,
                leg.goal,
                a.liquidity,
                down,
                (taken - 1) as nat,
            )
        },
    }
}

/// Whether a leg is a move through one range.
#[verifier::opaque]
pub open spec fn is_leg(leg: Leg, fee_bps: nat, down: bool, charge: Charge) -> bool {
    let (a, b) = (leg.from, leg.to);
    &&& a.liquidity > 0 && b.liquidity == a.liquidity
    &&& not_past(a.price, leg.goal, down)
    &&& not_past(a.price, b.price, down)
    &&& charge is Included ==> not_past(b.price, leg.goal, down)
    &&& b.left <= a.left
    &&& a.out <= b.out
    &&& pays(a.price, b.price, a.liquidity, down, (b.out - a.out) as nat)
    &&& charges(leg, fee_bps, down, charge)
}

/// Whether a swap crosses a tick behind a leg: it goes on with input left, and the entry of the
/// tick is added to the liquidity where the price rises and taken away where it falls.
pub open spec fn crosses(
    leg: Leg,
    tick: i32,
    net: Map<i32, i128>,
    down: bool,
    charge: Charge,
    next: Stand,
) -> bool {
    &&& net.dom().contains(tick)
    &&& tick_in_range(tick as int)
    &&& leg.goal == sqrt_ratio_at(tick as int)
    &&& charge is Included ==> leg.to.price == leg.goal
    &&& next.price == leg.to.price
    &&& next.left == leg.to.left && next.left > 0
    &&& next.out == leg.to.out
    &&& next.liquidity == if down {
        leg.to.liquidity - net[tick]
    } else {
        leg.to.liquidity + net[tick]
    }
}

/// Whether legs lead from a stand to another one, with a tick crossed behind each of them.
#[verifier::opaque]
pub open spec fn is_walk(
    legs: Seq<Leg>,
    start: Stand,
    here: Stand,
    crossed: Seq<i32>,
    net: Map<i32, i128>,
    fee_bps: nat,
    down: bool,
    charge: Charge,
) -> bool {
    &&& legs.len() == crossed.len()
    &&& legs.len() == 0 ==> here == start
    &&& legs.len() > 0 ==> legs[0].from == start && crosses(
        legs.last(),
        crossed.last(),
        net,
        down,
        charge,
        here,
    )
    &&& forall|k: int| 0 <= k < legs.len() ==> is_leg(#[trigger] legs[k], fee_bps, down, charge)
    &&& forall|k: int|
        0 < k < legs.len() ==> crosses(
            legs[k - 1],
            crossed[k - 1],
            net,
            down,
            charge,
            (#[trigger] legs[k]).from,
        )
}

/// Whether a swap leads from one stand to another one: legs with a tick crossed behind each of
/// them, and a last one behind which nothing is left.
pub open spec fn is_swap(
    start: Stand,
    end: Stand,
    crossed: Seq<i32>,
    net: Map<i32, i128>,
    fee_bps: nat,
    down: bool,
    charge: Charge,
) -> bool {
    exists|legs: Seq<Leg>, last: Leg|
        {
            &&& #[trigger] is_walk(legs, start, last.from, crossed, net, fee_bps, down, charge)
            &&& #[trigger] is_leg(last, fee_bps, down, charge)
            &&& last.to == end
            &&& end.left == 0
        }
}

/// Whether a tick and a price fit together: lower ticks do not lie above the price, nor higher ones
/// below it.
pub open spec fn is_placed(tick: int, price: nat) -> bool {
    &&& forall|t: int| MIN_TICK <= t < tick && t <= MAX_TICK ==> #[trigger] sqrt_ratio_at(t) <= price
    &&& forall|t: int| tick < t <= MAX_TICK && t >= MIN_TICK ==> price <= #[trigger] sqrt_ratio_at(t)
}

/// Whether ticks follow each other in the direction of a swap, none of the initialized ones left
/// out: each lies beyond the one before it, the first one beyond the tick where the swap starts,
/// and no initialized tick lies between them.
pub open spec fn in_order(ticks: Seq<i32>, start: int, crossed: Seq<i32>, down: bool) -> bool {
    forall|k: int|
        0 <= k < crossed.len() ==> #[trigger] follows_at(ticks, start, crossed, k, down)
}

/// Whether the tick at a place of a list is the next one behind the tick before it, the first one
/// behind `start`.
pub open spec fn follows_at(
    ticks: Seq<i32>,
    start: int,
    crossed: Seq<i32>,
    k: int,
    down: bool,
) -> bool {
    is_next(ticks, tick_before(start, crossed, k - 1), crossed[k] as int, down)
}

/// The tick at a place of a list, `start` before its first place.
pub open spec fn tick_before(start: int, crossed: Seq<i32>, i: int) -> int {
    if i < 0 {
        start
    } else {
        crossed[i] as int
    }
}

/// Whether a tick is beyond another one, with no initialized tick between them.
pub open spec fn is_next(ticks: Seq<i32>, tick: int, next: int, down: bool) -> bool {
    if down {
        next < tick && forall|i: int|
            0 <= i < ticks.len() ==> !(next < #[trigger] ticks[i] && ticks[i] < tick)
    } else {
        tick < next && forall|i: int|
            0 <= i < ticks.len() ==> !(tick < #[trigger] ticks[i] && ticks[i] < next)
    }
}

/// The output that legs have paid, one after the other.
pub open spec fn paid(legs: Seq<Leg>) -> nat
    decreases legs.len(),
{
    if legs.len() == 0 {
        0
    } else {
        paid(legs.drop_last()) + (legs.last().to.out - legs.last().from.out) as nat
    }
}

/// One more leg and one more crossed tick.
pub proof fn lemma_walk_on(
    legs: Seq<Leg>,
    leg: Leg,
    start: Stand,
    next: Stand,
    crossed: Seq<i32>,
    tick: i32,
    net: Map<i32, i128>,
    fee_bps: nat,
    down: bool,
    charge: Charge,
)
    requires
        is_walk(legs, start, leg.from, crossed, net, fee_bps, down, charge),
        is_leg(leg, fee_bps, down, charge),
        crosses(leg, tick, net, down, charge, next),
    ensures
        is_walk(
            legs.push(leg),
            start,
            next,
            crossed.push(tick),
            net,
            fee_bps,
            down,
            charge,
        ),
{
    reveal(is_walk);
    let more = legs.push(leg);
    let ticks = crossed.push(tick);
    assert(more.last() == leg && ticks.last() == tick);
    assert(more[0].from == start) by {
        if legs.len() > 0 {
            assert(more[0] == legs[0]);
        }
    }
    assert forall|k: int| 0 <= k < more.len() implies is_leg(
        #[trigger] more[k],
        fee_bps,
        down,
        charge,
    ) by {
        if k < legs.len() {
            assert(more[k] == legs[k]);
        }
    }
    assert forall|k: int| 0 < k < more.len() implies crosses(
        more[k - 1],
        ticks[k - 1],
        net,
        down,
        charge,
        (#[trigger] more[k]).from,
    ) by {
        assert(more[k - 1] == legs[k - 1] && ticks[k - 1] == crossed[k - 1]);
        if k < legs.len() {
            assert(more[k] == legs[k]);
        } else {
            assert(legs.last() == legs[k - 1] && crossed.last() == crossed[k - 1]);
        }
    }
}

/// One more crossed tick in order.
pub proof fn lemma_one_more_in_order(
    ticks: Seq<i32>,
    start: int,
    crossed: Seq<i32>,
    tick: i32,
    down: bool,
)
    requires
        in_order(ticks, start, crossed, down),
        is_next(
            ticks,
            if crossed.len() == 0 {
                start
            } else {
                crossed.last() as int
            },
            tick as int,
            down,
        ),
    ensures
        in_order(ticks, start, crossed.push(tick), down),
{
    let more = crossed.push(tick);
    assert forall|k: int| 0 <= k < more.len() implies #[trigger] follows_at(
        ticks,
        start,
        more,
        k,
        down,
    ) by {
        if k < crossed.len() {
            assert(follows_at(ticks, start, crossed, k, down));
        }
    }
}

/// A quotient of a quotient.
proof fn lemma_floor_twice(n: nat, a: nat, b: nat)
    requires
        a > 0,
        b > 0,
    ensures
        (n / a / b) * (b * a) <= n < (n / a / b + 1) * (b * a),
{
    let q = n / a;
    let r = q / b;
    lemma_fundamental_div_mod(n as int, a as int);
    lemma_fundamental_div_mod(q as int, b as int);
    assert(r * (b * a) <= n) by (nonlinear_arith)
        requires
            b * r <= q,
            a * q <= n,
            a > 0,
    ;
    assert(n < (r + 1) * (b * a)) by (nonlinear_arith)
        requires
            q + 1 <= b * r + b,
            n < a * q + a,
            a > 0,
    ;
}

/// What the kernel gives between two prices is what a pool pays.
pub proof fn lemma_given_is_paid(before: nat, after: nat, liquidity: nat, down: bool, out: nat)
    requires
        not_past(before, after, down),
        before > 0,
        given_between(before, after, liquidity, down) == Ok::<nat, Seq<char>>(out),
    ensures
        pays(before, after, liquidity, down, out),
{
    if down {
        let gap = (before - after) as nat;
        let n = liquidity * gap;
        lemma_fundamental_div_mod(n as int, q96() as int);
        assert(out == n / q96());
        assert(q96() * out == out * q96() && (out + 1) * q96() == out * q96() + q96())
            by (nonlinear_arith);
    } else {
        let gap = (after - before) as nat;
        let n = liquidity * q96() * gap;
        lemma_floor_twice(n, after, before);
        assert(out == n / after / before);
    }
}

/// What the kernel takes between two prices covers them, and one unit less does not.
pub proof fn lemma_taken_covers(before: nat, after: nat, liquidity: nat, down: bool, amount: nat)
    requires
        not_past(before, after, down),
        before > 0,
        taken_between(before, after, liquidity, down) == Ok::<nat, Seq<char>>(amount),
    ensures
        covers(before, after, liquidity, down, amount),
        amount > 0 ==> !covers(before, after, liquidity, down, (amount - 1) as nat),
{
    if down {
        assert(after > 0);
        let gap = (before - after) as nat;
        let n = liquidity * q96() * gap;
        let first = div_up(n, before);
        lemma_fundamental_div_mod(n as int, before as int);
        lemma_fundamental_div_mod(first as int, after as int);
        let q = n / before;
        let r = first / after;
        assert(before * q == q * before && after * r == r * after) by (nonlinear_arith);
        assert((q + 1) * before == q * before + before && (r + 1) * after == r * after + after)
            by (nonlinear_arith);
        assert(amount == div_up(first, after));
        assert(n <= first * before && first <= amount * after);
        assert(n <= amount * (before * after)) by (nonlinear_arith)
            requires
                n <= first * before,
                first <= amount * after,
        ;
        if amount > 0 {
            let less = (amount - 1) as nat;
            assert(less * after < first) by (nonlinear_arith)
                requires
                    amount * after < first + after,
                    less == amount - 1,
            ;
            assert((less * after) * before < n) by (nonlinear_arith)
                requires
                    less * after + 1 <= first,
                    first * before < n + before,
            ;
            assert(less * (before * after) == (less * after) * before) by (nonlinear_arith);
        }
    } else {
        let gap = (after - before) as nat;
        let n = liquidity * gap;
        lemma_fundamental_div_mod(n as int, q96() as int);
        let q = n / q96();
        assert(q96() * q == q * q96() && (q + 1) * q96() == q * q96() + q96()) by (nonlinear_arith);
        if amount > 0 {
            let less = (amount - 1) as nat;
            assert(less * q96() == amount * q96() - q96()) by (nonlinear_arith)
                requires
                    less == amount - 1,
            ;
        }
    }
}

/// More covers what less covers.
pub proof fn lemma_more_covers(
    before: nat,
    after: nat,
    liquidity: nat,
    down: bool,
    amount: nat,
    more: nat,
)
    requires
        covers(before, after, liquidity, down, amount),
        amount <= more,
    ensures
        covers(before, after, liquidity, down, more),
{
    let p = before * after;
    assert(amount * p <= more * p && amount * q96() <= more * q96()) by (nonlinear_arith)
        requires
            amount <= more,
    ;
}

/// A swap moves the price in its direction and pays the sum of what its ranges pay: token 0 never
/// raises the price, and token 1 never lowers it.
pub proof fn law_swap_pays_the_sum_of_its_ranges(
    start: Stand,
    end: Stand,
    crossed: Seq<i32>,
    net: Map<i32, i128>,
    fee_bps: nat,
    down: bool,
    charge: Charge,
)
    requires
        is_swap(start, end, crossed, net, fee_bps, down, charge),
    ensures
        not_past(start.price, end.price, down),
        start.out <= end.out,
        exists|legs: Seq<Leg>|
            {
                &&& legs.len() == crossed.len() + 1
                &&& legs[0].from == start && legs.last().to == end
                &&& forall|k: int|
                    0 <= k < legs.len() ==> is_leg(#[trigger] legs[k], fee_bps, down, charge)
                &&& end.out == start.out + #[trigger] paid(legs)
            },
{
    reveal(is_walk);
    reveal(is_leg);
    let (legs, last) = choose|legs: Seq<Leg>, last: Leg|
        {
            &&& #[trigger] is_walk(legs, start, last.from, crossed, net, fee_bps, down, charge)
            &&& #[trigger] is_leg(last, fee_bps, down, charge)
            &&& last.to == end
            &&& end.left == 0
        };
    lemma_walk_pays(legs, start, last.from, crossed, net, fee_bps, down, charge);
    let all = legs.push(last);
    assert(all.drop_last() =~= legs);
    assert(all.last() == last);
    assert(all[0].from == start) by {
        if legs.len() > 0 {
            assert(all[0] == legs[0]);
        }
    }
    assert forall|k: int| 0 <= k < all.len() implies is_leg(
        #[trigger] all[k],
        fee_bps,
        down,
        charge,
    ) by {
        if k < legs.len() {
            assert(all[k] == legs[k]);
        }
    }
    assert(end.out == start.out + paid(all));
}

/// The induction behind [`law_swap_pays_the_sum_of_its_ranges`].
proof fn lemma_walk_pays(
    legs: Seq<Leg>,
    start: Stand,
    here: Stand,
    crossed: Seq<i32>,
    net: Map<i32, i128>,
    fee_bps: nat,
    down: bool,
    charge: Charge,
)
    requires
        is_walk(legs, start, here, crossed, net, fee_bps, down, charge),
    ensures
        not_past(start.price, here.price, down),
        here.out == start.out + paid(legs),
    decreases legs.len(),
{
    reveal(is_walk);
    reveal(is_leg);
    if legs.len() > 0 {
        let fewer = legs.drop_last();
        let ticks = crossed.drop_last();
        let last = legs.last();
        assert(is_leg(legs[legs.len() - 1], fee_bps, down, charge));
        assert(is_walk(fewer, start, last.from, ticks, net, fee_bps, down, charge)) by {
            assert forall|k: int| 0 <= k < fewer.len() implies is_leg(
                #[trigger] fewer[k],
                fee_bps,
                down,
                charge,
            ) by {
                assert(fewer[k] == legs[k]);
            }
            assert forall|k: int| 0 < k < fewer.len() implies crosses(
                fewer[k - 1],
                ticks[k - 1],
                net,
                down,
                charge,
                (#[trigger] fewer[k]).from,
            ) by {
                assert(fewer[k] == legs[k]);
                assert(fewer[k - 1] == legs[k - 1] && ticks[k - 1] == crossed[k - 1]);
            }
            if fewer.len() > 0 {
                let k = legs.len() - 1;
                assert(legs[k] == last);
                assert(fewer.last() == legs[k - 1] && ticks.last() == crossed[k - 1]);
                assert(fewer[0] == legs[0]);
            }
        }
        lemma_walk_pays(fewer, start, last.from, ticks, net, fee_bps, down, charge);
    }
}

/// The leg that a step of an exact input makes.
pub open spec fn step_leg(
    current: nat,
    target: nat,
    liquidity: nat,
    amount: nat,
    next: nat,
    used: nat,
    given: nat,
) -> Leg {
    Leg {
        from: Stand { price: current, liquidity, left: amount, out: 0 },
        to: Stand { price: next, liquidity, left: (amount - used) as nat, out: given },
        goal: target,
    }
}

/// A leg stays one when the output paid before it is counted in.
pub proof fn lemma_leg_onward(
    leg: Leg,
    paid_before: nat,
    more: Leg,
    fee_bps: nat,
    down: bool,
    charge: Charge,
)
    requires
        is_leg(leg, fee_bps, down, charge),
        more.goal == leg.goal,
        more.from == (Stand { out: leg.from.out + paid_before, ..leg.from }),
        more.to == (Stand { out: leg.to.out + paid_before, ..leg.to }),
    ensures
        is_leg(more, fee_bps, down, charge),
{
    reveal(is_leg);
}

/// Whether `used` is the least amount that leaves `net` after a fee in basis points.
pub open spec fn grosses_up(used: nat, net: nat, fee_bps: nat) -> bool {
    &&& net * 10_000 <= used * (10_000 - fee_bps)
    &&& used > 0 ==> (used - 1) * (10_000 - fee_bps) < net * 10_000
}

/// A net amount with the kernel's fee on top is the least one that leaves it.
pub proof fn lemma_fee_grosses_up(net: nat, fee_bps: nat, fee: nat)
    requires
        fee_bps < 10_000,
        fee == div_up(net * (fee_bps * 100), (1_000_000 - fee_bps * 100) as nat),
    ensures
        grosses_up(net + fee, net, fee_bps),
{
    let q = (10_000 - fee_bps) as nat;
    let d = (1_000_000 - fee_bps * 100) as nat;
    let n = net * (fee_bps * 100);
    lemma_fundamental_div_mod(n as int, d as int);
    let k = n / d;
    assert(d * k == k * d && (k + 1) * d == k * d + d) by (nonlinear_arith);
    assert(n <= fee * d < n + d);
    assert(net * fee_bps <= fee * q) by (nonlinear_arith)
        requires
            n == net * (fee_bps * 100),
            d == 100 * q,
            n <= fee * d,
    ;
    assert((net + fee) * q >= net * 10_000) by (nonlinear_arith)
        requires
            net * fee_bps <= fee * q,
            q == 10_000 - fee_bps,
            fee_bps < 10_000,
    ;
    assert((fee * q) * 100 < (net * fee_bps) * 100 + 100 * q) by (nonlinear_arith)
        requires
            n == net * (fee_bps * 100),
            d == 100 * q,
            fee * d < n + d,
    ;
    assert((net + fee - 1) * q < net * 10_000 || net + fee == 0) by (nonlinear_arith)
        requires
            (fee * q) * 100 < (net * fee_bps) * 100 + 100 * q,
            q == 10_000 - fee_bps,
            fee_bps < 10_000,
    ;
}

/// What a step of an exact input takes and gives makes a leg.
pub proof fn lemma_step_is_leg(
    current: nat,
    target: nat,
    liquidity: nat,
    amount: nat,
    fee_bps: nat,
    next: nat,
    net: nat,
    used: nat,
    given: nat,
)
    requires
        liquidity > 0,
        current > 0,
        fee_bps < 10_000,
        used <= amount,
        not_past(current, next, current >= target),
        not_past(next, target, current >= target),
        taken_between(current, next, liquidity, current >= target) == Ok::<nat, Seq<char>>(net),
        given_between(current, next, liquidity, current >= target) == Ok::<nat, Seq<char>>(given),
        net * 10_000 <= used * (10_000 - fee_bps),
        next == target ==> grosses_up(used, net, fee_bps),
        next != target ==> used == amount && next_price_spec(
            current,
            liquidity,
            amount * ((10_000 - fee_bps) as nat) / 10_000,
            current >= target,
        ) == Ok::<nat, Seq<char>>(next),
    ensures
        is_leg(
            step_leg(current, target, liquidity, amount, next, used, given),
            fee_bps,
            current >= target,
            Charge::Included,
        ),
{
    reveal(is_leg);
    let down = current >= target;
    let q = (10_000 - fee_bps) as nat;
    lemma_given_is_paid(current, next, liquidity, down, given);
    lemma_taken_covers(current, next, liquidity, down, net);
    let kept = used * q / 10_000;
    assert(used * q == used * (10_000 - fee_bps));
    assert(net <= kept);
    lemma_more_covers(current, next, liquidity, down, net, kept);
    if next == target && used > 0 {
        let less = ((used - 1) as nat) * q / 10_000;
        assert(((used - 1) as nat) * q == (used - 1) * (10_000 - fee_bps));
        assert(less < net);
        if covers(current, next, liquidity, down, less) {
            lemma_more_covers(current, next, liquidity, down, less, (net - 1) as nat);
        }
    }
}

/// A leg towards a tick at the price takes and pays nothing, whichever way it goes.
proof fn lemma_idle_leg(leg: Leg, fee_bps: nat, down: bool)
    requires
        is_leg(leg, fee_bps, true, Charge::Included),
        leg.from.price == leg.goal,
        leg.from.price > 0,
    ensures
        leg.to == leg.from,
        is_leg(leg, fee_bps, down, Charge::Included),
{
    reveal(is_leg);
    let (a, b) = (leg.from, leg.to);
    let p = a.price * b.price;
    assert(p > 0) by (nonlinear_arith)
        requires
            p == a.price * b.price,
            a.price > 0,
            b.price > 0,
    ;
    assert(a.liquidity * q96() * (a.price - b.price) == 0) by (nonlinear_arith)
        requires
            a.price == b.price,
    ;
    assert(a.liquidity * q96() * (b.price - a.price) == 0) by (nonlinear_arith)
        requires
            a.price == b.price,
    ;
    assert(a.liquidity * (b.price - a.price) == 0 && a.liquidity * (a.price - b.price) == 0)
        by (nonlinear_arith)
        requires
            a.price == b.price,
    ;
    if a.left > b.left {
        let less = ((a.left - b.left - 1) as nat) * ((10_000 - fee_bps) as nat) / 10_000;
        assert(less * p >= 0) by (nonlinear_arith);
        assert(covers(a.price, b.price, a.liquidity, true, less));
    }
    assert(a.left == b.left);
    assert(b.out == a.out);
    let kept = 0nat * ((10_000 - fee_bps) as nat) / 10_000;
    assert(kept == 0);
    assert(0 * p == 0 && (0 + 1) * p == p) by (nonlinear_arith);
    assert(pays(a.price, b.price, a.liquidity, down, 0));
    assert(covers(a.price, b.price, a.liquidity, down, kept));
    assert(charges(leg, fee_bps, down, Charge::Included));
}

/// A step towards a tick that is not behind the price is a leg of the swap that has come so far.
pub proof fn lemma_step_onward(
    here: Stand,
    target: nat,
    next: nat,
    used: nat,
    given: nat,
    fee_bps: nat,
    down: bool,
)
    requires
        is_leg(
            step_leg(here.price, target, here.liquidity, here.left, next, used, given),
            fee_bps,
            here.price >= target,
            Charge::Included,
        ),
        here.price > 0,
        used <= here.left,
        not_past(here.price, target, down),
    ensures
        is_leg(
            Leg {
                from: here,
                to: Stand {
                    price: next,
                    liquidity: here.liquidity,
                    left: (here.left - used) as nat,
                    out: here.out + given,
                },
                goal: target,
            },
            fee_bps,
            down,
            Charge::Included,
        ),
{
    let bare = step_leg(here.price, target, here.liquidity, here.left, next, used, given);
    if here.price == target {
        lemma_idle_leg(bare, fee_bps, down);
    }
    lemma_leg_onward(
        bare,
        here.out,
        Leg {
            from: here,
            to: Stand {
                price: next,
                liquidity: here.liquidity,
                left: (here.left - used) as nat,
                out: here.out + given,
            },
            goal: target,
        },
        fee_bps,
        down,
        Charge::Included,
    );
}

/// A walk of no legs.
pub proof fn lemma_walk_starts(
    start: Stand,
    net: Map<i32, i128>,
    fee_bps: nat,
    down: bool,
    charge: Charge,
)
    ensures
        is_walk(seq![], start, start, seq![], net, fee_bps, down, charge),
{
    reveal(is_walk);
}

/// A walk and a last leg that leaves no input make a swap.
pub proof fn lemma_walk_ends(
    legs: Seq<Leg>,
    last: Leg,
    start: Stand,
    crossed: Seq<i32>,
    net: Map<i32, i128>,
    fee_bps: nat,
    down: bool,
    charge: Charge,
)
    requires
        is_walk(legs, start, last.from, crossed, net, fee_bps, down, charge),
        is_leg(last, fee_bps, down, charge),
        last.to.left == 0,
    ensures
        is_swap(start, last.to, crossed, net, fee_bps, down, charge),
{
}

/// A step whose input, less the fee, does not cover the way to the target stops short of it.
pub proof fn lemma_step_stops_short(
    current: nat,
    target: nat,
    liquidity: nat,
    amount: nat,
    next: nat,
    used: nat,
    given: nat,
    fee_bps: nat,
    needed: nat,
)
    requires
        is_leg(
            step_leg(current, target, liquidity, amount, next, used, given),
            fee_bps,
            current >= target,
            Charge::Included,
        ),
        current > 0,
        used <= amount,
        taken_between(current, target, liquidity, current >= target) == Ok::<nat, Seq<char>>(
            needed,
        ),
        amount * ((10_000 - fee_bps) as nat) / 10_000 < needed,
    ensures
        next != target,
{
    reveal(is_leg);
    if next == target {
        let down = current >= target;
        let q = (10_000 - fee_bps) as nat;
        lemma_taken_covers(current, target, liquidity, down, needed);
        assert(used * q <= amount * q) by (nonlinear_arith)
            requires
                used <= amount,
        ;
        assert(used * q / 10_000 <= amount * q / 10_000);
        lemma_more_covers(
            current,
            target,
            liquidity,
            down,
            used * q / 10_000,
            (needed - 1) as nat,
        );
    }
}

/// Nothing is taken where the price stays.
pub proof fn lemma_nothing_between(price: nat, liquidity: nat, down: bool)
    requires
        price > 0,
    ensures
        taken_between(price, price, liquidity, down) == Ok::<nat, Seq<char>>(0),
{
    let n = liquidity * q96() * ((price - price) as nat);
    assert(n == 0) by (nonlinear_arith)
        requires
            n == liquidity * q96() * ((price - price) as nat),
    ;
    assert(liquidity * 0 == 0) by (nonlinear_arith);
    vstd::arithmetic::div_mod::lemma_div_basics(price as int);
    vstd::arithmetic::div_mod::lemma_small_mod(0, price);
    vstd::arithmetic::div_mod::lemma_small_mod(0, q96());
    assert(div_up(0, price) == 0);
    assert(div_up(0, q96()) == 0);
}

/// A tick that follows the tick of a pool is not behind its price.
pub proof fn lemma_goal_lies_ahead(ticks: Seq<i32>, tick: int, price: nat, next: int, down: bool)
    requires
        is_placed(tick, price),
        is_next(ticks, tick, next, down),
        tick_in_range(next),
    ensures
        not_past(price, sqrt_ratio_at(next), down),
{
}

/// An input that moves the price by the formula of one range, short of the tick ahead, makes a leg
/// with the fee as a share of the whole.
pub proof fn lemma_formula_leg(
    from: Stand,
    goal: nat,
    price: nat,
    net: nat,
    needed: nat,
    out: nat,
    fee_bps: nat,
    down: bool,
)
    requires
        from.liquidity > 0,
        from.price > 0,
        from.out == 0,
        fee_bps < 10_000,
        net == from.left * ((10_000 - fee_bps) as nat) / 10_000,
        not_past(from.price, price, down),
        not_past(price, goal, down),
        taken_between(from.price, goal, from.liquidity, down) == Ok::<nat, Seq<char>>(needed),
        net < needed,
        taken_between(from.price, price, from.liquidity, down) matches Ok(n) && n <= net,
        given_between(from.price, price, from.liquidity, down) == Ok::<nat, Seq<char>>(out),
        next_price_spec(from.price, from.liquidity, net, down) == Ok::<nat, Seq<char>>(price),
    ensures
        is_leg(
            Leg { from, to: Stand { price, liquidity: from.liquidity, left: 0, out }, goal },
            fee_bps,
            down,
            Charge::Included,
        ),
{
    let n = taken_between(from.price, price, from.liquidity, down)->Ok_0;
    lemma_given_is_paid(from.price, price, from.liquidity, down, out);
    lemma_taken_covers(from.price, price, from.liquidity, down, n);
    lemma_more_covers(from.price, price, from.liquidity, down, n, net);
    assert(price != goal);
    reveal(is_leg);
}

/// A range pays what lies between its two prices at its liquidity, rounded down: token 1 for token 0
/// that comes in, `liquidity * (before - after) / 2^96`, and token 0 for token 1 that comes in,
/// `liquidity * 2^96 * (after - before) / (before * after)`. It takes no more than is left.
pub proof fn law_range_pays_what_lies_between(leg: Leg, fee_bps: nat, down: bool, charge: Charge)
    requires
        is_leg(leg, fee_bps, down, charge),
    ensures
        ({
            let (before, after, liquidity) = (leg.from.price, leg.to.price, leg.from.liquidity);
            let out = leg.to.out - leg.from.out;
            let unit = 0x1_0000_0000_0000_0000_0000_0000int;
            &&& out >= 0
            &&& leg.to.left <= leg.from.left
            &&& down ==> after <= before && out * unit <= liquidity * (before - after) < (out + 1)
                * unit
            &&& !down ==> before <= after && out * (before * after) <= liquidity * unit * (after
                - before) < (out + 1) * (before * after)
        }),
{
    reveal(is_leg);
}

/// Ticks in order lie beyond the tick where they start, below it for token 0 that comes in and above
/// it for token 1, each beyond the ones before it; and every initialized tick from the start to the
/// last of them is one of them.
pub proof fn law_ticks_in_order_lie_ahead(
    ticks: Seq<i32>,
    start: int,
    crossed: Seq<i32>,
    down: bool,
)
    requires
        in_order(ticks, start, crossed, down),
    ensures
        forall|k: int|
            0 <= k < crossed.len() ==> if down {
                #[trigger] crossed[k] < start
            } else {
                start < crossed[k]
            },
        forall|i: int, j: int|
            0 <= i < j < crossed.len() ==> if down {
                #[trigger] crossed[i] > #[trigger] crossed[j]
            } else {
                crossed[i] < crossed[j]
            },
        crossed.len() > 0 ==> forall|m: int|
            0 <= m < ticks.len() && (if down {
                crossed.last() <= #[trigger] ticks[m] && ticks[m] < start
            } else {
                start < ticks[m] && ticks[m] <= crossed.last()
            }) ==> crossed.contains(ticks[m]),
{
    assert forall|k: int| 0 <= k < crossed.len() implies if down {
        #[trigger] crossed[k] < start
    } else {
        start < crossed[k]
    } by {
        lemma_beyond(ticks, start, crossed, down, -1, k);
    }
    assert forall|i: int, j: int| 0 <= i < j < crossed.len() implies if down {
        #[trigger] crossed[i] > #[trigger] crossed[j]
    } else {
        crossed[i] < crossed[j]
    } by {
        lemma_beyond(ticks, start, crossed, down, i, j);
    }
    if crossed.len() > 0 {
        assert forall|m: int|
            0 <= m < ticks.len() && (if down {
                crossed.last() <= #[trigger] ticks[m] && ticks[m] < start
            } else {
                start < ticks[m] && ticks[m] <= crossed.last()
            }) implies crossed.contains(ticks[m]) by {
            lemma_no_gap(ticks, start, crossed, down, crossed.len() - 1, m);
        }
    }
}

/// A tick in order lies beyond every one before it.
proof fn lemma_beyond(
    ticks: Seq<i32>,
    start: int,
    crossed: Seq<i32>,
    down: bool,
    i: int,
    j: int,
)
    requires
        in_order(ticks, start, crossed, down),
        -1 <= i < j < crossed.len(),
    ensures
        down ==> crossed[j] < tick_before(start, crossed, i),
        !down ==> tick_before(start, crossed, i) < crossed[j],
    decreases j - i,
{
    assert(follows_at(ticks, start, crossed, j, down));
    if i < j - 1 {
        lemma_beyond(ticks, start, crossed, down, i, j - 1);
    }
}

/// No initialized tick up to a tick in order is left out.
proof fn lemma_no_gap(
    ticks: Seq<i32>,
    start: int,
    crossed: Seq<i32>,
    down: bool,
    n: int,
    m: int,
)
    requires
        in_order(ticks, start, crossed, down),
        0 <= n < crossed.len(),
        0 <= m < ticks.len(),
        down ==> crossed[n] <= ticks[m] < start,
        !down ==> start < ticks[m] <= crossed[n],
    ensures
        crossed.contains(ticks[m]),
    decreases n,
{
    let tick = ticks[m];
    assert(follows_at(ticks, start, crossed, n, down));
    if tick == crossed[n] {
        assert(crossed.contains(crossed[n]));
    } else {
        lemma_no_gap(ticks, start, crossed, down, n - 1, m);
    }
}

} // verus!
