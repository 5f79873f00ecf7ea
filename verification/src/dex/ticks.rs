//! Search in sorted lists of initialized ticks.

use vstd::prelude::*;

verus! {

/// No tick is above a later one.
pub open spec fn ascending(s: Seq<i32>) -> bool {
    forall|i: int, j: int| 0 <= i <= j < s.len() ==> s[i] <= s[j]
}

/// Every tick is below every later one.
pub open spec fn strictly_ascending(s: Seq<i32>) -> bool {
    forall|i: int, j: int| 0 <= i < j < s.len() ==> s[i] < s[j]
}

/// The last tick of the list that is below `bound`. In an ascending list that is the largest one.
pub open spec fn last_below(s: Seq<i32>, bound: int) -> Option<i32>
    decreases s.len(),
{
    if s.len() == 0 {
        None
    } else if s.last() < bound {
        Some(s.last())
    } else {
        last_below(s.drop_last(), bound)
    }
}

/// The first tick of the list that is above `bound`. In an ascending list that is the smallest
/// one.
pub open spec fn first_above(s: Seq<i32>, bound: int) -> Option<i32>
    decreases s.len(),
{
    if s.len() == 0 {
        None
    } else if s[0] > bound {
        Some(s[0])
    } else {
        first_above(s.drop_first(), bound)
    }
}

/// In an ascending list, [`last_below`] is the largest tick below the bound, and there is none
/// only where no tick is below the bound.
pub proof fn law_last_below_is_largest(s: Seq<i32>, bound: int)
    requires
        ascending(s),
    ensures
        match last_below(s, bound) {
            Some(t) => s.contains(t) && t < bound && forall|k: int|
                0 <= k < s.len() && s[k] < bound ==> s[k] <= t,
            None => forall|k: int| 0 <= k < s.len() ==> s[k] >= bound,
        },
    decreases s.len(),
{
    if s.len() > 0 {
        if s.last() < bound {
            assert(s[s.len() - 1] == s.last());
            assert(s.contains(s.last()));
            assert forall|k: int| 0 <= k < s.len() && s[k] < bound implies s[k] <= s.last() by {
                assert(s[k] <= s[s.len() - 1]);
            }
        } else {
            let rest = s.drop_last();
            law_last_below_is_largest(rest, bound);
            match last_below(rest, bound) {
                Some(t) => {
                    let i = choose|i: int| 0 <= i < rest.len() && rest[i] == t;
                    assert(s[i] == t);
                    assert forall|k: int| 0 <= k < s.len() && s[k] < bound implies s[k] <= t by {
                        if k < rest.len() {
                            assert(rest[k] == s[k]);
                        }
                    }
                },
                None => {
                    assert forall|k: int| 0 <= k < s.len() implies s[k] >= bound by {
                        if k < rest.len() {
                            assert(rest[k] == s[k]);
                        }
                    }
                },
            }
        }
    }
}

/// In an ascending list, [`first_above`] is the smallest tick above the bound, and there is none
/// only where no tick is above the bound.
pub proof fn law_first_above_is_smallest(s: Seq<i32>, bound: int)
    requires
        ascending(s),
    ensures
        match first_above(s, bound) {
            Some(t) => s.contains(t) && t > bound && forall|k: int|
                0 <= k < s.len() && s[k] > bound ==> s[k] >= t,
            None => forall|k: int| 0 <= k < s.len() ==> s[k] <= bound,
        },
    decreases s.len(),
{
    if s.len() > 0 {
        if s[0] > bound {
            assert(s.contains(s[0]));
        } else {
            let rest = s.drop_first();
            assert(forall|k: int| 0 <= k < rest.len() ==> rest[k] == s[k + 1]);
            law_first_above_is_smallest(rest, bound);
            match first_above(rest, bound) {
                Some(t) => {
                    let i = choose|i: int| 0 <= i < rest.len() && rest[i] == t;
                    assert(s[i + 1] == t);
                    assert forall|k: int| 0 <= k < s.len() && s[k] > bound implies s[k] >= t by {
                        if k > 0 {
                            assert(rest[k - 1] == s[k]);
                        }
                    }
                },
                None => {
                    assert forall|k: int| 0 <= k < s.len() implies s[k] <= bound by {
                        if k > 0 {
                            assert(rest[k - 1] == s[k]);
                        }
                    }
                },
            }
        }
    }
}

/// Where the first `pos` ticks are below the bound and no other one is, [`last_below`] is the
/// tick before `pos`.
pub proof fn lemma_last_below_at(s: Seq<i32>, bound: int, pos: int)
    requires
        0 <= pos <= s.len(),
        forall|k: int| 0 <= k < pos ==> s[k] < bound,
        forall|k: int| pos <= k < s.len() ==> s[k] >= bound,
    ensures
        last_below(s, bound) == if pos > 0 {
            Some(s[pos - 1])
        } else {
            None
        },
    decreases s.len(),
{
    if s.len() > 0 && pos < s.len() {
        assert(s.last() == s[s.len() - 1]);
        let rest = s.drop_last();
        assert(forall|k: int| 0 <= k < rest.len() ==> rest[k] == s[k]);
        lemma_last_below_at(rest, bound, pos);
    } else if s.len() > 0 {
        assert(s.last() == s[pos - 1]);
    }
}

/// Where the first `pos` ticks are not above the bound and every other one is, [`first_above`]
/// is the tick at `pos`.
pub proof fn lemma_first_above_at(s: Seq<i32>, bound: int, pos: int)
    requires
        0 <= pos <= s.len(),
        forall|k: int| 0 <= k < pos ==> s[k] <= bound,
        forall|k: int| pos <= k < s.len() ==> s[k] > bound,
    ensures
        first_above(s, bound) == if pos < s.len() {
            Some(s[pos])
        } else {
            None
        },
    decreases s.len(),
{
    if s.len() > 0 && pos > 0 {
        let rest = s.drop_first();
        assert(forall|k: int| 0 <= k < rest.len() ==> rest[k] == s[k + 1]);
        lemma_first_above_at(rest, bound, pos - 1);
    }
}

/// The number of ticks below `bound` in an ascending list.
pub fn count_below(ticks: &[i32], bound: i32) -> (pos: usize)
    requires
        ascending(ticks@),
    ensures
        pos <= ticks@.len(),
        forall|k: int| 0 <= k < pos ==> ticks@[k] < bound,
        forall|k: int| pos <= k < ticks@.len() ==> ticks@[k] >= bound,
{
    let mut lo: usize = 0;
    let mut hi: usize = ticks.len();
    while lo < hi
        invariant
            ascending(ticks@),
            lo <= hi <= ticks@.len(),
            forall|k: int| 0 <= k < lo ==> ticks@[k] < bound,
            forall|k: int| hi <= k < ticks@.len() ==> ticks@[k] >= bound,
        decreases hi - lo,
    {
        let mid: usize = lo + (hi - lo) / 2;
        if ticks[mid] < bound {
            lo = mid + 1;
        } else {
            hi = mid;
        }
    }
    lo
}

/// The number of ticks up to and with `bound` in an ascending list.
pub fn count_up_to(ticks: &[i32], bound: i32) -> (pos: usize)
    requires
        ascending(ticks@),
    ensures
        pos <= ticks@.len(),
        forall|k: int| 0 <= k < pos ==> ticks@[k] <= bound,
        forall|k: int| pos <= k < ticks@.len() ==> ticks@[k] > bound,
{
    let mut lo: usize = 0;
    let mut hi: usize = ticks.len();
    while lo < hi
        invariant
            ascending(ticks@),
            lo <= hi <= ticks@.len(),
            forall|k: int| 0 <= k < lo ==> ticks@[k] <= bound,
            forall|k: int| hi <= k < ticks@.len() ==> ticks@[k] > bound,
        decreases hi - lo,
    {
        let mid: usize = lo + (hi - lo) / 2;
        if ticks[mid] <= bound {
            lo = mid + 1;
        } else {
            hi = mid;
        }
    }
    lo
}

/// Finds [`last_below`].
pub fn find_last_below(ticks: &[i32], bound: i32) -> (r: Option<i32>)
    requires
        ascending(ticks@),
    ensures
        r == last_below(ticks@, bound as int),
{
    let pos: usize = count_below(ticks, bound);
    proof {
        lemma_last_below_at(ticks@, bound as int, pos as int);
    }
    if pos > 0 {
        Some(ticks[pos - 1])
    } else {
        None
    }
}

/// Finds [`first_above`].
pub fn find_first_above(ticks: &[i32], bound: i32) -> (r: Option<i32>)
    requires
        ascending(ticks@),
    ensures
        r == first_above(ticks@, bound as int),
{
    let pos: usize = count_up_to(ticks, bound);
    proof {
        lemma_first_above_at(ticks@, bound as int, pos as int);
    }
    if pos < ticks.len() {
        Some(ticks[pos])
    } else {
        None
    }
}

/// Tests whether every tick is below the next one.
pub fn is_strictly_ascending(ticks: &[i32]) -> (r: bool)
    ensures
        r == strictly_ascending(ticks@),
{
    if ticks.len() == 0 {
        return true;
    }
    let mut i: usize = 1;
    while i < ticks.len()
        invariant
            1 <= i <= ticks@.len(),
            forall|a: int, b: int| 0 <= a < b < i ==> ticks@[a] < ticks@[b],
        decreases ticks@.len() - i,
    {
        if ticks[i - 1] >= ticks[i] {
            proof {
                assert(!(ticks@[i - 1] < ticks@[i as int]));
            }
            return false;
        }
        proof {
            assert forall|a: int, b: int| 0 <= a < b < i + 1 implies ticks@[a] < ticks@[b] by {
                if b == i && a < i - 1 {
                    assert(ticks@[a] < ticks@[i - 1]);
                }
            }
        }
        i = i + 1;
    }
    true
}

/// The multiple of the spacing next to the one at or below the tick: one step down or up.
pub open spec fn spacing_step(current: int, spacing: int, down: bool) -> int {
    if down {
        (current / spacing - 1) * spacing
    } else {
        (current / spacing + 1) * spacing
    }
}

/// The quotient of the division that rounds towards minus infinity.
pub fn floor_div(a: i32, b: i32) -> (r: i64)
    requires
        b > 0,
    ensures
        r == (a as int) / (b as int),
{
    let x: i64 = a as i64;
    let y: i64 = b as i64;
    if x >= 0 {
        x / y
    } else {
        let q: i64 = (-(x + 1)) / y;
        proof {
            let n = -(x + 1) as int;
            let d = y as int;
            let k = q as int;
            vstd::arithmetic::div_mod::lemma_fundamental_div_mod(n, d);
            assert(n == d * (n / d) + n % d);
            assert(x as int == d * (-k - 1) + (d - 1 - n % d)) by (nonlinear_arith)
                requires
                    n == -(x as int) - 1,
                    n == d * k + n % d,
            ;
            vstd::arithmetic::div_mod::lemma_fundamental_div_mod_converse(
                x as int,
                d,
                -k - 1,
                d - 1 - n % d,
            );
        }
        -q - 1
    }
}

} // verus!
