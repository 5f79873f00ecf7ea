//! What the measuring programs share: how many rounds they run, the amounts they draw, and the
//! tally of a comparison between two sources of quotes.

use crate::text::{dec, digit, same_text};
use crate::u256::{distance, U256};
use vstd::prelude::*;

verus! {

/// The value of a decimal digit.
pub open spec fn digit_value(c: char) -> nat {
    (c as int - '0' as int) as nat
}

/// Whether a character is a decimal digit.
pub open spec fn is_digit(c: char) -> bool {
    '0' <= c && c <= '9'
}

/// The number that a list of decimal digits stands for.
pub open spec fn digits_value(s: Seq<char>) -> nat
    decreases s.len(),
{
    if s.len() == 0 {
        0
    } else {
        digits_value(s.drop_last()) * 10 + digit_value(s.last())
    }
}

/// The digits of a number that may be written with a plus sign.
pub open spec fn unsigned_digits(s: Seq<char>) -> Seq<char> {
    if s.len() > 1 && s[0] == '+' {
        s.skip(1)
    } else {
        s
    }
}

/// The 64-bit number that a text stands for, if it stands for one.
pub open spec fn number_of(s: Seq<char>) -> Option<nat> {
    let digits = unsigned_digits(s);
    if digits.len() > 0 && (forall|k: int| 0 <= k < digits.len() ==> is_digit(#[trigger] digits[k]))
        && digits_value(digits) <= u64::MAX {
        Some(digits_value(digits))
    } else {
        None
    }
}

/// More digits stand for no smaller a number.
proof fn lemma_prefix_is_no_larger(s: Seq<char>, k: int)
    requires
        0 <= k <= s.len(),
    ensures
        digits_value(s.take(k)) <= digits_value(s),
    decreases s.len(),
{
    if k == s.len() {
        assert(s.take(k) =~= s);
    } else {
        let shorter = s.drop_last();
        assert(shorter.take(k) =~= s.take(k));
        lemma_prefix_is_no_larger(shorter, k);
    }
}

/// Reads a 64-bit number.
pub fn parse_number(text: &str) -> (r: Option<u64>)
    ensures
        match r {
            Some(v) => number_of(text@) == Some(v as nat),
            None => number_of(text@) is None,
        },
{
    let len: usize = text.unicode_len();
    let first: usize = if len > 1 && text.get_char(0) == '+' {
        1
    } else {
        0
    };
    let ghost digits = unsigned_digits(text@);
    if first == len {
        return None;
    }
    let mut value: u64 = 0;
    let mut i: usize = first;
    while i < len
        invariant
            first <= i <= len,
            len == text@.len(),
            digits == unsigned_digits(text@),
            digits.len() == len - first,
            forall|k: int| 0 <= k < digits.len() ==> digits[k] == text@[k + first],
            forall|k: int| 0 <= k < i - first ==> is_digit(#[trigger] digits[k]),
            value == digits_value(digits.take(i - first)),
        decreases len - i,
    {
        let c: char = text.get_char(i);
        proof {
            assert(c == digits[i - first]);
            let longer = digits.take(i - first + 1);
            assert(longer.drop_last() =~= digits.take(i - first));
            assert(longer.last() == c);
            lemma_prefix_is_no_larger(digits, i - first + 1);
        }
        if c < '0' || c > '9' {
            return None;
        }
        let digit: u64 = (c as u32 - '0' as u32) as u64;
        value = match value.checked_mul(10) {
            None => return None,
            Some(v) => match v.checked_add(digit) {
                None => return None,
                Some(v) => v,
            },
        };
        i = i + 1;
    }
    proof {
        assert(digits.take(len - first) =~= digits);
    }
    Some(value)
}

/// The texts of a list of arguments.
pub open spec fn texts(args: Seq<String>) -> Seq<Seq<char>> {
    Seq::new(args.len(), |i: int| args[i]@)
}

/// The number of rounds after the arguments from `from` on: what follows each `--iters` and is a
/// number, but at least one.
pub open spec fn iters_spec(args: Seq<Seq<char>>, from: int, iters: u64) -> u64
    decreases args.len() - from,
{
    if from < 0 || from >= args.len() {
        iters
    } else if args[from] == "--iters"@ {
        if from + 1 >= args.len() {
            iters
        } else {
            match number_of(args[from + 1]) {
                Some(v) => iters_spec(
                    args,
                    from + 2,
                    if v == 0 {
                        1
                    } else {
                        v as u64
                    },
                ),
                None => iters_spec(args, from + 2, iters),
            }
        }
    } else {
        iters_spec(args, from + 1, iters)
    }
}

/// Finds the number of rounds that the arguments of a program ask for.
pub fn parse_iters(args: &[String], default: u64) -> (r: u64)
    ensures
        r == iters_spec(texts(args@), 0, default),
{
    let mut iters: u64 = default;
    let mut i: usize = 0;
    while i < args.len()
        invariant
            i <= args@.len(),
            iters_spec(texts(args@), i as int, iters) == iters_spec(texts(args@), 0, default),
        decreases args@.len() - i,
    {
        if same_text(args[i].as_str(), "--iters") {
            if i + 1 == args.len() {
                return iters;
            }
            match parse_number(args[i + 1].as_str()) {
                Some(v) => {
                    iters = if v == 0 {
                        1
                    } else {
                        v
                    };
                },
                None => {},
            }
            i = i + 2;
        } else {
            i = i + 1;
        }
    }
    iters
}

/// The number of rounds that run before those that are measured: a tenth, but from 1000 to 20000.
pub fn warmup_iters(iters: u64) -> (r: u64)
    ensures
        r == if iters / 10 < 1_000 {
            1_000
        } else if iters / 10 > 20_000 {
            20_000
        } else {
            iters / 10
        },
{
    let tenth: u64 = iters / 10;
    if tenth < 1_000 {
        1_000
    } else if tenth > 20_000 {
        20_000
    } else {
        tenth
    }
}

/// The number of rounds of a part of a measurement: one of `parts` shares, but at least `least`.
pub fn share_of_iters(iters: u64, parts: u64, least: u64) -> (r: u64)
    requires
        parts > 0,
    ensures
        r == if iters / parts < least {
            least
        } else {
            iters / parts
        },
{
    let share: u64 = iters / parts;
    if share < least {
        least
    } else {
        share
    }
}

/// The next state of the generator of amounts.
pub open spec fn next_seed(seed: u64) -> u64 {
    let a = seed ^ (seed >> 12);
    let b = a ^ (a << 25);
    b ^ (b >> 27)
}

/// The amount that a state of the generator stands for: from 1 to below `upper`.
pub open spec fn drawn(state: u64, upper: u64) -> nat {
    let bound: int = if upper < 2 {
        2
    } else {
        upper as int
    };
    let v = (state * 0x2545_F491_4F6C_DD1D) % 0x1_0000_0000_0000_0000 % bound;
    if v == 0 {
        1
    } else {
        v as nat
    }
}

/// Draws a number and moves the generator on.
pub fn draw(seed: &mut u64, upper: u64) -> (r: u64)
    ensures
        *final(seed) == next_seed(*old(seed)),
        r == drawn(*final(seed), upper),
{
    let mut x: u64 = *seed;
    x = x ^ (x >> 12);
    x = x ^ (x << 25);
    x = x ^ (x >> 27);
    *seed = x;
    let bound: u64 = if upper < 2 {
        2
    } else {
        upper
    };
    let v: u64 = x.wrapping_mul(0x2545_F491_4F6C_DD1D) % bound;
    if v == 0 {
        1
    } else {
        v
    }
}

/// Draws an amount and moves the generator on.
pub fn rand_amount(seed: &mut u64, upper: u64) -> (r: U256)
    ensures
        *final(seed) == next_seed(*old(seed)),
        r@ == drawn(*final(seed), upper),
{
    U256::from_u64(draw(seed, upper))
}

/// The distance between two amounts.
pub fn absolute_diff(a: U256, b: U256) -> (r: U256)
    ensures
        r@ == distance(a@, b@),
{
    a.distance(b)
}

/// The tally of a comparison: how many pairs of amounts there were, how many were equal, and the
/// largest difference.
#[derive(Clone, Copy, Debug)]
pub struct Parity {
    pub exact: u64,
    pub total: u64,
    pub max_diff: U256,
}

/// A tally after one more pair of amounts.
pub open spec fn counted(tally: (nat, nat, nat), ours: nat, theirs: nat) -> (nat, nat, nat) {
    let diff = distance(ours, theirs);
    (
        if ours == theirs {
            tally.0 + 1
        } else {
            tally.0
        },
        tally.1 + 1,
        if diff > tally.2 {
            diff
        } else {
            tally.2
        },
    )
}

impl Parity {
    /// Whether the tally is one of pairs of amounts.
    pub open spec fn wf(self) -> bool {
        self.exact <= self.total && (self.exact == self.total <==> self.max_diff@ == 0)
    }

    /// What a tally holds: equal pairs, pairs, and the largest difference.
    pub open spec fn view(&self) -> (nat, nat, nat) {
        (self.exact as nat, self.total as nat, self.max_diff@)
    }

    /// The tally of no pairs.
    pub fn new() -> (r: Parity)
        ensures
            r.wf(),
            r@ == (0nat, 0nat, 0nat),
    {
        Parity { exact: 0, total: 0, max_diff: U256::zero() }
    }

    /// Counts a pair of amounts. All pairs so far were equal exactly where the largest
    /// difference is zero.
    pub fn record(&mut self, ours: U256, theirs: U256)
        requires
            old(self).wf(),
            old(self).total < u64::MAX,
        ensures
            final(self).wf(),
            final(self)@ == counted(old(self)@, ours@, theirs@),
    {
        let diff = absolute_diff(ours, theirs);
        if diff.is_zero() {
            self.exact = self.exact + 1;
        }
        self.total = self.total + 1;
        if self.max_diff.less(&diff) {
            self.max_diff = diff;
        }
    }
}

/// A drawn amount is not zero, and below the bound it was drawn for where that leaves room.
pub proof fn law_drawn_amount_is_in_range(state: u64, upper: u64)
    ensures
        drawn(state, upper) >= 1,
        upper >= 2 ==> drawn(state, upper) < upper,
{
}

/// One more pair raises the number of pairs by one, that of the equal ones where its amounts are
/// equal, and the largest difference to its own where that is larger. It does not matter which of
/// the two amounts comes first, nor which of two pairs is counted first.
pub proof fn law_pairs_are_tallied(
    tally: (nat, nat, nat),
    ours: nat,
    theirs: nat,
    other_ours: nat,
    other_theirs: nat,
)
    ensures
        ({
            let after = counted(tally, ours, theirs);
            &&& after.1 == tally.1 + 1
            &&& ours == theirs ==> after.0 == tally.0 + 1 && after.2 == tally.2
            &&& ours != theirs ==> after.0 == tally.0
            &&& after.2 >= tally.2 && after.2 >= ours - theirs && after.2 >= theirs - ours
            &&& after.2 == tally.2 || after.2 == ours - theirs || after.2 == theirs - ours
        }),
        counted(tally, theirs, ours) == counted(tally, ours, theirs),
        counted(counted(tally, ours, theirs), other_ours, other_theirs) == counted(
            counted(tally, other_ours, other_theirs),
            ours,
            theirs,
        ),
{
}

/// The rounds are those that a program asks for: what it has by default where no argument is
/// `--iters`, and the number behind the only one, but at least one.
pub proof fn law_rounds_are_those_asked_for(
    args: Seq<Seq<char>>,
    number: Seq<char>,
    default: u64,
)
    requires
        forall|k: int| 0 <= k < args.len() ==> #[trigger] args[k] != "--iters"@,
    ensures
        iters_spec(args, 0, default) == default,
        iters_spec(args.push("--iters"@).push(number), 0, default) == match number_of(number) {
            Some(v) => if v == 0 {
                1u64
            } else {
                v as u64
            },
            None => default,
        },
{
    lemma_rounds(args, args, 0, default);
    lemma_rounds(args, args.push("--iters"@).push(number), 0, default);
    let all = args.push("--iters"@).push(number);
    let n = args.len() as int;
    assert(all[n] == "--iters"@ && all[n + 1] == number);
    assert(iters_spec(all, n + 2, default) == default);
    match number_of(number) {
        Some(v) => {
            let asked: u64 = if v == 0 {
                1
            } else {
                v as u64
            };
            assert(iters_spec(all, n + 2, asked) == asked);
        },
        None => {},
    }
}

/// Arguments other than `--iters` do not count.
proof fn lemma_rounds(args: Seq<Seq<char>>, all: Seq<Seq<char>>, from: int, iters: u64)
    requires
        forall|k: int| 0 <= k < args.len() ==> #[trigger] args[k] != "--iters"@,
        0 <= from <= args.len() <= all.len(),
        forall|k: int| 0 <= k < args.len() ==> all[k] == args[k],
    ensures
        iters_spec(all, from, iters) == iters_spec(all, args.len() as int, iters),
    decreases args.len() - from,
{
    if from < args.len() {
        assert(all[from] == args[from]);
        lemma_rounds(args, all, from + 1, iters);
    }
}

/// A decimal text reads back as the number that it was written for.
pub proof fn law_decimal_text_reads_back(n: nat)
    ensures
        digits_value(dec(n)) == n,
        dec(n).len() > 0,
        forall|k: int| 0 <= k < dec(n).len() ==> is_digit(#[trigger] dec(n)[k]),
        n <= u64::MAX ==> number_of(dec(n)) == Some(n),
    decreases n,
{
    reveal_strlit("0");
    reveal_strlit("1");
    reveal_strlit("2");
    reveal_strlit("3");
    reveal_strlit("4");
    reveal_strlit("5");
    reveal_strlit("6");
    reveal_strlit("7");
    reveal_strlit("8");
    reveal_strlit("9");
    reveal_with_fuel(digits_value, 2);
    let last = digit(n % 10);
    assert(last.len() == 1 && is_digit(last[0]) && digit_value(last[0]) == n % 10);
    if n < 10 {
        assert(dec(n) == last);
        assert(last.drop_last() =~= Seq::<char>::empty());
    } else {
        law_decimal_text_reads_back(n / 10);
        let text = dec(n / 10) + last;
        assert(text.drop_last() =~= dec(n / 10));
        assert(text.last() == last[0]);
    }
    assert(dec(n)[0] != '+');
}

} // verus!
