//! Ordered lists of ticks, built from lists and sets in any order.

use crate::dex::ticks::{ascending, count_below, strictly_ascending};
use std::collections::HashSet;
use vstd::prelude::*;

verus! {

/// `r` holds the ticks of `s` in ascending order, each as often as `s` does.
pub open spec fn is_sorted_form(r: Seq<i32>, s: Seq<i32>) -> bool {
    ascending(r) && r.to_multiset() == s.to_multiset()
}

/// There is only one sorted form.
pub proof fn law_sorted_form_is_unique(a: Seq<i32>, b: Seq<i32>, s: Seq<i32>)
    requires
        is_sorted_form(a, s),
        is_sorted_form(b, s),
    ensures
        a == b,
{
    let leq = |x: i32, y: i32| x <= y;
    assert(vstd::relations::sorted_by(a, leq));
    assert(vstd::relations::sorted_by(b, leq));
    assert(vstd::relations::total_ordering(leq));
    vstd::seq_lib::lemma_sorted_unique(a, b, leq);
}

/// Two strictly ascending lists of the same ticks are the same list.
pub proof fn law_strict_form_is_unique(a: Seq<i32>, b: Seq<i32>)
    requires
        strictly_ascending(a),
        strictly_ascending(b),
        a.to_set() == b.to_set(),
    ensures
        a == b,
    decreases a.len(),
{
    if a.len() == 0 {
        if b.len() > 0 {
            assert(b.to_set().contains(b[0]));
            assert(a.to_set().contains(b[0]));
        }
        assert(a =~= b);
    } else if b.len() == 0 {
        assert(a.to_set().contains(a[0]));
        assert(b.to_set().contains(a[0]));
    } else {
        let x = a.last();
        let y = b.last();
        assert(a[a.len() - 1] == x && b[b.len() - 1] == y);
        assert(a.to_set().contains(x));
        assert(b.to_set().contains(y));
        assert(b.contains(x) && a.contains(y));
        let i = choose|i: int| 0 <= i < b.len() && b[i] == x;
        let j = choose|j: int| 0 <= j < a.len() && a[j] == y;
        assert(x == y);
        let a1 = a.drop_last();
        let b1 = b.drop_last();
        assert forall|t: i32| a1.to_set().contains(t) == b1.to_set().contains(t) by {
            if a1.contains(t) {
                let k = choose|k: int| 0 <= k < a1.len() && a1[k] == t;
                assert(a[k] == t);
                assert(a.to_set().contains(t));
                assert(b.contains(t));
                let m = choose|m: int| 0 <= m < b.len() && b[m] == t;
                assert(b1[m] == t);
            }
            if b1.contains(t) {
                let k = choose|k: int| 0 <= k < b1.len() && b1[k] == t;
                assert(b[k] == t);
                assert(b.to_set().contains(t));
                assert(a.contains(t));
                let m = choose|m: int| 0 <= m < a.len() && a[m] == t;
                assert(a1[m] == t);
            }
        }
        assert(a1.to_set() =~= b1.to_set());
        law_strict_form_is_unique(a1, b1);
        assert(a =~= a1.push(x));
        assert(b =~= b1.push(y));
    }
}

/// Puts a list in ascending order.
pub fn sorted(ticks: &[i32]) -> (r: Vec<i32>)
    ensures
        is_sorted_form(r@, ticks@),
{
    let mut out: Vec<i32> = Vec::new();
    let mut i: usize = 0;
    proof {
        assert(ticks@.take(0) =~= out@);
    }
    while i < ticks.len()
        invariant
            i <= ticks@.len(),
            out@.len() == i,
            is_sorted_form(out@, ticks@.take(i as int)),
        decreases ticks@.len() - i,
    {
        let t: i32 = ticks[i];
        let pos: usize = count_below(out.as_slice(), t);
        let ghost before = out@;
        out.insert(pos, t);
        proof {
            let after = before.insert(pos as int, t);
            assert(out@ =~= after);
            assert(ticks@.take(i + 1) =~= ticks@.take(i as int).push(t));
            vstd::seq_lib::to_multiset_insert(before, pos as int, t);
            vstd::seq_lib::to_multiset_build(ticks@.take(i as int), t);
            assert forall|a: int, b: int| 0 <= a <= b < after.len() implies after[a]
                <= after[b] by {
                assert(a < pos ==> after[a] == before[a]);
                assert(a > pos ==> after[a] == before[a - 1]);
                assert(b < pos ==> after[b] == before[b]);
                assert(b > pos ==> after[b] == before[b - 1]);
            }
        }
        i = i + 1;
    }
    proof {
        assert(ticks@.take(i as int) =~= ticks@);
    }
    out
}

/// Adds a tick to a strictly ascending list that may hold it already.
fn add_tick(out: &mut Vec<i32>, t: i32)
    requires
        strictly_ascending(old(out)@),
        old(out)@.len() < usize::MAX,
    ensures
        strictly_ascending(final(out)@),
        final(out)@.to_set() == old(out)@.to_set().insert(t),
        final(out)@.len() <= old(out)@.len() + 1,
{
    let ghost before = out@;
    let pos: usize = count_below(out.as_slice(), t);
    if pos < out.len() && out[pos] == t {
        proof {
            assert(before.to_set().contains(t));
            assert(before.to_set().insert(t) =~= before.to_set());
        }
        return;
    }
    out.insert(pos, t);
    proof {
        let after = before.insert(pos as int, t);
        assert(out@ =~= after);
        assert forall|x: i32| after.to_set().contains(x) == before.to_set().insert(t).contains(
            x,
        ) by {
            if before.contains(x) {
                let k = choose|k: int| 0 <= k < before.len() && before[k] == x;
                if k < pos {
                    assert(after[k] == x);
                } else {
                    assert(after[k + 1] == x);
                }
            }
            if x == t {
                assert(after[pos as int] == x);
            }
            if after.contains(x) {
                let k = choose|k: int| 0 <= k < after.len() && after[k] == x;
                if k < pos {
                    assert(before[k] == x);
                } else if k > pos {
                    assert(before[k - 1] == x);
                }
            }
        }
        assert(after.to_set() =~= before.to_set().insert(t));
    }
}

/// Puts a list in strictly ascending order: each tick once.
pub fn sorted_distinct(ticks: &[i32]) -> (r: Vec<i32>)
    ensures
        strictly_ascending(r@),
        r@.to_set() == ticks@.to_set(),
{
    let mut out: Vec<i32> = Vec::new();
    let mut i: usize = 0;
    proof {
        assert(ticks@.take(0).to_set() =~= out@.to_set());
    }
    while i < ticks.len()
        invariant
            i <= ticks@.len(),
            out@.len() <= i,
            strictly_ascending(out@),
            out@.to_set() == ticks@.take(i as int).to_set(),
        decreases ticks@.len() - i,
    {
        let t: i32 = ticks[i];
        add_tick(&mut out, t);
        proof {
            let done = ticks@.take(i as int);
            let more = ticks@.take(i + 1);
            assert(more =~= done.push(t));
            assert forall|x: i32| more.to_set().contains(x) == done.to_set().insert(t).contains(
                x,
            ) by {
                if done.contains(x) {
                    let k = choose|k: int| 0 <= k < done.len() && done[k] == x;
                    assert(more[k] == x);
                }
                if x == t {
                    assert(more[i as int] == x);
                }
            }
            assert(more.to_set() =~= done.to_set().insert(t));
        }
        i = i + 1;
    }
    proof {
        assert(ticks@.take(i as int) =~= ticks@);
    }
    out
}

/// Lists a set of ticks in ascending order.
pub fn sorted_set(ticks: &HashSet<i32>) -> (r: Vec<i32>)
    ensures
        strictly_ascending(r@),
        r@.to_set() == ticks@,
{
    let mut list: Vec<i32> = Vec::new();
    for t in it: ticks.iter()
        invariant
            list@ == it.seq().unref().take(it.index()),
            it.seq().unref().to_set() == ticks@,
            it.index() == it.seq().len() ==> list@ == it.seq().unref(),
    {
        list.push(*t);
        proof {
            let all = it.seq().unref();
            assert(all.take(it.index() + 1) =~= all.take(it.index()).push(*t));
            assert(all.take(all.len() as int) =~= all);
        }
    }
    proof {
        assert(list@.to_set() =~= ticks@);
    }
    sorted_distinct(list.as_slice())
}

} // verus!
