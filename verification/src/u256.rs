//! The 256-bit unsigned integer of the library.
//!
//! A value is four 64-bit limbs, and its view is the natural number they spell. The arithmetic
//! itself is done by the integer types of `alloy_primitives` and `primitive_types`; this module
//! states what the library relies on of each operation.

use vstd::arithmetic::div_mod::{lemma_basic_div, lemma_div_by_self, lemma_div_multiples_vanish};
use vstd::arithmetic::power2::{
    lemma2_to64, lemma_pow2_adds, lemma_pow2_pos, lemma_pow2_strictly_increases, pow2,
};
use vstd::prelude::*;

verus! {

/// One past the largest value of a [`U256`]: two to the power 256.
pub open spec fn u256_limit() -> nat {
    0x1_0000_0000_0000_0000_0000_0000_0000_0000_0000_0000_0000_0000_0000_0000_0000_0000nat
}

/// The number that four limbs spell, least significant limb first.
#[verifier::opaque]
pub open spec fn limbs_value(l0: u64, l1: u64, l2: u64, l3: u64) -> nat {
    (l0 + l1 * 0x1_0000_0000_0000_0000 + l2 * 0x1_0000_0000_0000_0000_0000_0000_0000_0000int
        + l3 * 0x1_0000_0000_0000_0000_0000_0000_0000_0000_0000_0000_0000_0000int) as nat
}

/// A 256-bit unsigned integer. The limbs are declared from the most significant one down, so
/// that the derived order is the order of the numbers.
#[derive(Clone, Copy, Debug, PartialEq, Eq, PartialOrd, Ord, Hash, Structural)]
pub struct U256 {
    pub l3: u64,
    pub l2: u64,
    pub l1: u64,
    pub l0: u64,
}

impl View for U256 {
    type V = nat;

    open spec fn view(&self) -> nat {
        limbs_value(self.l0, self.l1, self.l2, self.l3)
    }
}

/// A number wrapped around at the limit.
pub open spec fn wrap(n: nat) -> nat {
    n % u256_limit()
}

/// The numbers that a sequence of integers stands for.
pub open spec fn values(s: Seq<U256>) -> Seq<nat> {
    Seq::new(s.len(), |i: int| s[i]@)
}

/// The limit is a power of two.
pub proof fn lemma_limit_is_pow2()
    ensures
        pow2(256) == u256_limit(),
{
    vstd::arithmetic::power2::lemma2_to64_rest();
    lemma_pow2_adds(64, 64);
    lemma_pow2_adds(128, 128);
    let p64 = pow2(64);
    let p128 = pow2(128);
    let limit = u256_limit();
    assert(p128 == 0x1_0000_0000_0000_0000_0000_0000_0000_0000nat) by (nonlinear_arith)
        requires
            p64 == 0x1_0000_0000_0000_0000nat,
            p128 == p64 * p64,
    ;
    assert(p128 * p128 == limit) by (nonlinear_arith)
        requires
            p128 == 0x1_0000_0000_0000_0000_0000_0000_0000_0000nat,
            limit
                == 0x1_0000_0000_0000_0000_0000_0000_0000_0000_0000_0000_0000_0000_0000_0000_0000_0000nat,
    ;
}

/// Whether a bit of a number is set.
pub open spec fn bit(n: nat, i: nat) -> bool {
    (n / pow2(i)) % 2 == 1
}

/// `r` has the bits that `a` or `b` has.
pub open spec fn is_union(a: nat, b: nat, r: nat) -> bool {
    forall|i: nat| i < 256 ==> #[trigger] bit(r, i) == (bit(a, i) || bit(b, i))
}

/// A power of two has one bit.
pub proof fn lemma_bit_of_power(k: nat, i: nat)
    ensures
        bit(pow2(k), i) == (i == k),
{
    lemma_pow2_pos(i);
    lemma_pow2_pos(k);
    if i < k {
        let gap = (k - i - 1) as nat;
        lemma_pow2_adds(i, gap + 1);
        lemma_pow2_adds(gap, 1);
        lemma2_to64();
        lemma_div_multiples_vanish(pow2(gap + 1) as int, pow2(i) as int);
        assert(pow2(k) / pow2(i) == pow2(gap + 1));
        assert(pow2(gap + 1) == pow2(gap) * 2);
        assert((pow2(gap) * 2) % 2 == 0);
    } else if i == k {
        lemma_div_by_self(pow2(k) as int);
    } else {
        lemma_pow2_strictly_increases(k, i);
        lemma_basic_div(pow2(k) as int, pow2(i) as int);
    }
}

/// The view of an optional integer.
pub open spec fn opt_value(v: Option<U256>) -> Option<nat> {
    match v {
        Some(x) => Some(x@),
        None => None,
    }
}

/// Every value lies below the limit.
pub broadcast proof fn u256_in_range(x: U256)
    ensures
        #[trigger] x@ < u256_limit(),
{
    reveal(limbs_value);
}

/// Two integers with the same number have the same limbs.
pub proof fn u256_view_injective(x: U256, y: U256)
    requires
        x@ == y@,
    ensures
        x == y,
{
    reveal(limbs_value);
    if x.l3 < y.l3 || y.l3 < x.l3 {
        assert(false);
    } else if x.l2 < y.l2 || y.l2 < x.l2 {
        assert(false);
    } else if x.l1 < y.l1 || y.l1 < x.l1 {
        assert(false);
    }
}

/// `true` where the number fits in 256 bits.
pub open spec fn fits(n: nat) -> bool {
    n < u256_limit()
}

impl U256 {
    /// Zero.
    pub fn zero() -> (r: U256)
        ensures
            r@ == 0,
    {
        proof {
            reveal(limbs_value);
        }
        U256 { l3: 0, l2: 0, l1: 0, l0: 0 }
    }

    /// The largest value.
    pub fn max_value() -> (r: U256)
        ensures
            r@ == u256_limit() - 1,
    {
        proof {
            reveal(limbs_value);
        }
        U256 { l3: u64::MAX, l2: u64::MAX, l1: u64::MAX, l0: u64::MAX }
    }

    /// The integer with the given limbs, least significant limb first.
    pub fn from_limbs(l0: u64, l1: u64, l2: u64, l3: u64) -> (r: U256)
        ensures
            r@ == limbs_value(l0, l1, l2, l3),
            r == (U256 { l3, l2, l1, l0 }),
    {
        U256 { l3, l2, l1, l0 }
    }

    /// The integer with the value of a `u64`.
    pub fn from_u64(v: u64) -> (r: U256)
        ensures
            r@ == v,
    {
        proof {
            reveal(limbs_value);
        }
        U256 { l3: 0, l2: 0, l1: 0, l0: v }
    }

    /// The integer with the value of a `u128`.
    pub fn from_u128(v: u128) -> (r: U256)
        ensures
            r@ == v,
    {
        proof {
            reveal(limbs_value);
        }
        U256 {
            l3: 0,
            l2: 0,
            l1: (v / 0x1_0000_0000_0000_0000) as u64,
            l0: (v % 0x1_0000_0000_0000_0000) as u64,
        }
    }

    /// `true` exactly for zero.
    pub fn is_zero(&self) -> (r: bool)
        ensures
            r == (self@ == 0),
    {
        proof {
            reveal(limbs_value);
        }
        self.l0 == 0 && self.l1 == 0 && self.l2 == 0 && self.l3 == 0
    }

    /// `true` exactly where `self` is below `other`.
    pub fn less(&self, other: &U256) -> (r: bool)
        ensures
            r == (self@ < other@),
    {
        proof {
            reveal(limbs_value);
        }
        if self.l3 != other.l3 {
            self.l3 < other.l3
        } else if self.l2 != other.l2 {
            self.l2 < other.l2
        } else if self.l1 != other.l1 {
            self.l1 < other.l1
        } else {
            self.l0 < other.l0
        }
    }

    /// `true` exactly where both stand for the same number.
    pub fn same(&self, other: &U256) -> (r: bool)
        ensures
            r == (self@ == other@),
            r == (*self == *other),
    {
        proof {
            if self@ == other@ {
                u256_view_injective(*self, *other);
            }
        }
        self.l0 == other.l0 && self.l1 == other.l1 && self.l2 == other.l2 && self.l3 == other.l3
    }

    /// The smaller of the two.
    pub fn minimum(self, other: U256) -> (r: U256)
        ensures
            r@ == if self@ <= other@ { self@ } else { other@ },
    {
        if other.less(&self) {
            other
        } else {
            self
        }
    }

    /// The value as a `u128`, where it fits.
    pub fn to_u128(&self) -> (r: Option<u128>)
        ensures
            match r {
                Some(v) => self@ == v,
                None => self@ > u128::MAX,
            },
    {
        proof {
            reveal(limbs_value);
        }
        if self.l3 != 0 || self.l2 != 0 {
            None
        } else {
            Some(self.l0 as u128 + self.l1 as u128 * 0x1_0000_0000_0000_0000)
        }
    }

    /// The value modulo two to the power 128.
    pub fn low_u128(&self) -> (r: u128)
        ensures
            r == self@ % 0x1_0000_0000_0000_0000_0000_0000_0000_0000nat,
    {
        proof {
            reveal(limbs_value);
        }
        self.l0 as u128 + self.l1 as u128 * 0x1_0000_0000_0000_0000
    }
}

// ---------------------------------------------------------------------------------------------
// Arithmetic of `alloy_primitives::U256` (the type `ruint::Uint<256, 4>`).
// ---------------------------------------------------------------------------------------------

impl U256 {
    /// `alloy_primitives::U256::checked_add`: the sum where it fits in 256 bits, else nothing.
    #[verifier::external_body]
    pub(crate) fn checked_add(self, rhs: U256) -> (r: Option<U256>)
        ensures
            opt_value(r) == if fits(self@ + rhs@) {
                Some(self@ + rhs@)
            } else {
                None
            },
    {
        let a = alloy_primitives::U256::from_limbs([self.l0, self.l1, self.l2, self.l3]);
        let b = alloy_primitives::U256::from_limbs([rhs.l0, rhs.l1, rhs.l2, rhs.l3]);
        a.checked_add(b).map(|v| {
            let w = v.into_limbs();
            U256 { l3: w[3], l2: w[2], l1: w[1], l0: w[0] }
        })
    }

    /// `alloy_primitives::U256::checked_sub`: the difference where it is not negative, else
    /// nothing.
    #[verifier::external_body]
    pub(crate) fn checked_sub(self, rhs: U256) -> (r: Option<U256>)
        ensures
            opt_value(r) == if self@ >= rhs@ {
                Some((self@ - rhs@) as nat)
            } else {
                None
            },
    {
        let a = alloy_primitives::U256::from_limbs([self.l0, self.l1, self.l2, self.l3]);
        let b = alloy_primitives::U256::from_limbs([rhs.l0, rhs.l1, rhs.l2, rhs.l3]);
        a.checked_sub(b).map(|v| {
            let w = v.into_limbs();
            U256 { l3: w[3], l2: w[2], l1: w[1], l0: w[0] }
        })
    }

    /// `alloy_primitives::U256::checked_mul`: the product where it fits in 256 bits, else
    /// nothing.
    #[verifier::external_body]
    pub(crate) fn checked_mul(self, rhs: U256) -> (r: Option<U256>)
        ensures
            opt_value(r) == if fits(self@ * rhs@) {
                Some(self@ * rhs@)
            } else {
                None
            },
    {
        let a = alloy_primitives::U256::from_limbs([self.l0, self.l1, self.l2, self.l3]);
        let b = alloy_primitives::U256::from_limbs([rhs.l0, rhs.l1, rhs.l2, rhs.l3]);
        a.checked_mul(b).map(|v| {
            let w = v.into_limbs();
            U256 { l3: w[3], l2: w[2], l1: w[1], l0: w[0] }
        })
    }

    /// `alloy_primitives::U256::checked_div`: the quotient rounded down, or nothing for a zero
    /// divisor.
    #[verifier::external_body]
    pub(crate) fn checked_div(self, rhs: U256) -> (r: Option<U256>)
        ensures
            opt_value(r) == if rhs@ != 0 {
                Some(self@ / rhs@)
            } else {
                None
            },
    {
        let a = alloy_primitives::U256::from_limbs([self.l0, self.l1, self.l2, self.l3]);
        let b = alloy_primitives::U256::from_limbs([rhs.l0, rhs.l1, rhs.l2, rhs.l3]);
        a.checked_div(b).map(|v| {
            let w = v.into_limbs();
            U256 { l3: w[3], l2: w[2], l1: w[1], l0: w[0] }
        })
    }

    /// `alloy_primitives::U256::checked_rem`: the remainder of the division, or nothing for a
    /// zero divisor.
    #[verifier::external_body]
    pub(crate) fn checked_rem(self, rhs: U256) -> (r: Option<U256>)
        ensures
            opt_value(r) == if rhs@ != 0 {
                Some(self@ % rhs@)
            } else {
                None
            },
    {
        let a = alloy_primitives::U256::from_limbs([self.l0, self.l1, self.l2, self.l3]);
        let b = alloy_primitives::U256::from_limbs([rhs.l0, rhs.l1, rhs.l2, rhs.l3]);
        a.checked_rem(b).map(|v| {
            let w = v.into_limbs();
            U256 { l3: w[3], l2: w[2], l1: w[1], l0: w[0] }
        })
    }

    /// `alloy_primitives::U256::saturating_add`: the sum, or the largest value where the sum
    /// does not fit.
    #[verifier::external_body]
    pub(crate) fn saturating_add(self, rhs: U256) -> (r: U256)
        ensures
            r@ == if fits(self@ + rhs@) {
                self@ + rhs@
            } else {
                (u256_limit() - 1) as nat
            },
    {
        let a = alloy_primitives::U256::from_limbs([self.l0, self.l1, self.l2, self.l3]);
        let b = alloy_primitives::U256::from_limbs([rhs.l0, rhs.l1, rhs.l2, rhs.l3]);
        let w = a.saturating_add(b).into_limbs();
        U256 { l3: w[3], l2: w[2], l1: w[1], l0: w[0] }
    }

    /// `alloy_primitives::U256::saturating_sub`: the difference, or zero where it would be
    /// negative.
    #[verifier::external_body]
    pub(crate) fn saturating_sub(self, rhs: U256) -> (r: U256)
        ensures
            r@ == if self@ >= rhs@ {
                (self@ - rhs@) as nat
            } else {
                0
            },
    {
        let a = alloy_primitives::U256::from_limbs([self.l0, self.l1, self.l2, self.l3]);
        let b = alloy_primitives::U256::from_limbs([rhs.l0, rhs.l1, rhs.l2, rhs.l3]);
        let w = a.saturating_sub(b).into_limbs();
        U256 { l3: w[3], l2: w[2], l1: w[1], l0: w[0] }
    }

    /// `alloy_primitives::U256::saturating_mul`: the product, or the largest value where the
    /// product does not fit.
    #[verifier::external_body]
    pub(crate) fn saturating_mul(self, rhs: U256) -> (r: U256)
        ensures
            r@ == if fits(self@ * rhs@) {
                self@ * rhs@
            } else {
                (u256_limit() - 1) as nat
            },
    {
        let a = alloy_primitives::U256::from_limbs([self.l0, self.l1, self.l2, self.l3]);
        let b = alloy_primitives::U256::from_limbs([rhs.l0, rhs.l1, rhs.l2, rhs.l3]);
        let w = a.saturating_mul(b).into_limbs();
        U256 { l3: w[3], l2: w[2], l1: w[1], l0: w[0] }
    }

    /// `alloy_primitives::U256::wrapping_add`: the sum, which wraps around where it does not fit.
    #[verifier::external_body]
    pub(crate) fn wrapping_add(self, rhs: U256) -> (r: U256)
        ensures
            r@ == wrap(self@ + rhs@),
    {
        let a = alloy_primitives::U256::from_limbs([self.l0, self.l1, self.l2, self.l3]);
        let b = alloy_primitives::U256::from_limbs([rhs.l0, rhs.l1, rhs.l2, rhs.l3]);
        let w = a.wrapping_add(b).into_limbs();
        U256 { l3: w[3], l2: w[2], l1: w[1], l0: w[0] }
    }

    /// `alloy_primitives::U256::wrapping_mul`: the product, which wraps around where it does not
    /// fit.
    #[verifier::external_body]
    pub(crate) fn wrapping_mul(self, rhs: U256) -> (r: U256)
        ensures
            r@ == wrap(self@ * rhs@),
    {
        let a = alloy_primitives::U256::from_limbs([self.l0, self.l1, self.l2, self.l3]);
        let b = alloy_primitives::U256::from_limbs([rhs.l0, rhs.l1, rhs.l2, rhs.l3]);
        let w = a.wrapping_mul(b).into_limbs();
        U256 { l3: w[3], l2: w[2], l1: w[1], l0: w[0] }
    }

    /// `alloy_primitives::U256::leading_zeros`: the number of zero bits above the highest one
    /// bit, 256 for zero.
    #[verifier::external_body]
    pub(crate) fn leading_zeros(self) -> (r: usize)
        ensures
            r <= 256,
            self@ < pow2((256 - r) as nat),
            self@ > 0 ==> r < 256 && self@ >= pow2((255 - r) as nat),
    {
        alloy_primitives::U256::from_limbs([self.l0, self.l1, self.l2, self.l3]).leading_zeros()
    }

    /// `alloy_primitives::U256::wrapping_shl`, the operator `<<`: the value times a power of
    /// two, modulo two to the power 256.
    #[verifier::external_body]
    pub(crate) fn shl(self, bits: usize) -> (r: U256)
        ensures
            r@ == (self@ * pow2(bits as nat)) % u256_limit(),
    {
        let a = alloy_primitives::U256::from_limbs([self.l0, self.l1, self.l2, self.l3]);
        let w = (a << bits).into_limbs();
        U256 { l3: w[3], l2: w[2], l1: w[1], l0: w[0] }
    }

    /// `alloy_primitives::U256::wrapping_shr`, the operator `>>`: the value divided by a power
    /// of two, rounded down.
    #[verifier::external_body]
    pub(crate) fn shr(self, bits: usize) -> (r: U256)
        ensures
            r@ == self@ / pow2(bits as nat),
    {
        let a = alloy_primitives::U256::from_limbs([self.l0, self.l1, self.l2, self.l3]);
        let w = (a >> bits).into_limbs();
        U256 { l3: w[3], l2: w[2], l1: w[1], l0: w[0] }
    }
}

// ---------------------------------------------------------------------------------------------
// Arithmetic of `primitive_types::U256`, which `ethers_core` uses as its own integer.
// ---------------------------------------------------------------------------------------------

impl U256 {
    /// `primitive_types::U256::checked_mul`: the product where it fits in 256 bits, else
    /// nothing.
    #[verifier::external_body]
    pub(crate) fn primitive_checked_mul(self, rhs: U256) -> (r: Option<U256>)
        ensures
            opt_value(r) == if fits(self@ * rhs@) {
                Some(self@ * rhs@)
            } else {
                None
            },
    {
        let a = primitive_types::U256([self.l0, self.l1, self.l2, self.l3]);
        let b = primitive_types::U256([rhs.l0, rhs.l1, rhs.l2, rhs.l3]);
        a.checked_mul(b).map(|v| U256 { l3: v.0[3], l2: v.0[2], l1: v.0[1], l0: v.0[0] })
    }

    /// `primitive_types::U256::checked_sub`: the difference where it is not negative, else
    /// nothing.
    #[verifier::external_body]
    pub(crate) fn primitive_checked_sub(self, rhs: U256) -> (r: Option<U256>)
        ensures
            opt_value(r) == if self@ >= rhs@ {
                Some((self@ - rhs@) as nat)
            } else {
                None
            },
    {
        let a = primitive_types::U256([self.l0, self.l1, self.l2, self.l3]);
        let b = primitive_types::U256([rhs.l0, rhs.l1, rhs.l2, rhs.l3]);
        a.checked_sub(b).map(|v| U256 { l3: v.0[3], l2: v.0[2], l1: v.0[1], l0: v.0[0] })
    }

    /// The operator `<<` of `primitive_types::U256`: the value times a power of two, modulo two to
    /// the power 256.
    #[verifier::external_body]
    pub(crate) fn primitive_shl(self, bits: usize) -> (r: U256)
        ensures
            r@ == (self@ * pow2(bits as nat)) % u256_limit(),
    {
        let a = primitive_types::U256([self.l0, self.l1, self.l2, self.l3]);
        let v = a << bits;
        U256 { l3: v.0[3], l2: v.0[2], l1: v.0[1], l0: v.0[0] }
    }

    /// The operator `|` of `primitive_types::U256`: a bit is set where it is set in either value.
    #[verifier::external_body]
    pub(crate) fn primitive_or(self, rhs: U256) -> (r: U256)
        ensures
            is_union(self@, rhs@, r@),
    {
        let a = primitive_types::U256([self.l0, self.l1, self.l2, self.l3]);
        let b = primitive_types::U256([rhs.l0, rhs.l1, rhs.l2, rhs.l3]);
        let v = a | b;
        U256 { l3: v.0[3], l2: v.0[2], l1: v.0[1], l0: v.0[0] }
    }

    /// `primitive_types::U256::checked_div`: the quotient rounded down, or nothing for a zero
    /// divisor.
    #[verifier::external_body]
    pub(crate) fn primitive_checked_div(self, rhs: U256) -> (r: Option<U256>)
        ensures
            opt_value(r) == if rhs@ != 0 {
                Some(self@ / rhs@)
            } else {
                None
            },
    {
        let a = primitive_types::U256([self.l0, self.l1, self.l2, self.l3]);
        let b = primitive_types::U256([rhs.l0, rhs.l1, rhs.l2, rhs.l3]);
        a.checked_div(b).map(|v| U256 { l3: v.0[3], l2: v.0[2], l1: v.0[1], l0: v.0[0] })
    }
}

// ---------------------------------------------------------------------------------------------
// Total forms for operands that are known to be in range.
// ---------------------------------------------------------------------------------------------

impl U256 {
    /// The quotient rounded down.
    pub fn div(self, rhs: U256) -> (r: U256)
        requires
            rhs@ != 0,
        ensures
            r@ == self@ / rhs@,
    {
        match self.checked_div(rhs) {
            Some(v) => v,
            None => U256::zero(),
        }
    }

    /// The remainder of the division.
    pub fn rem(self, rhs: U256) -> (r: U256)
        requires
            rhs@ != 0,
        ensures
            r@ == self@ % rhs@,
    {
        match self.checked_rem(rhs) {
            Some(v) => v,
            None => U256::zero(),
        }
    }

    /// The difference of two values of which the second is not the larger one.
    pub fn minus(self, rhs: U256) -> (r: U256)
        requires
            self@ >= rhs@,
        ensures
            r@ == self@ - rhs@,
    {
        match self.checked_sub(rhs) {
            Some(v) => v,
            None => U256::zero(),
        }
    }

    /// The sum of two values whose sum fits.
    pub fn plus(self, rhs: U256) -> (r: U256)
        requires
            fits(self@ + rhs@),
        ensures
            r@ == self@ + rhs@,
    {
        match self.checked_add(rhs) {
            Some(v) => v,
            None => U256::zero(),
        }
    }

    /// The product of two values whose product fits.
    pub fn times(self, rhs: U256) -> (r: U256)
        requires
            fits(self@ * rhs@),
        ensures
            r@ == self@ * rhs@,
    {
        match self.checked_mul(rhs) {
            Some(v) => v,
            None => U256::zero(),
        }
    }

    /// The distance between two values.
    pub fn distance(self, other: U256) -> (r: U256)
        ensures
            r@ == distance(self@, other@),
    {
        if self.less(&other) {
            other.minus(self)
        } else {
            self.minus(other)
        }
    }
}

/// The distance between two numbers.
pub open spec fn distance(a: nat, b: nat) -> nat {
    if a < b {
        (b - a) as nat
    } else {
        (a - b) as nat
    }
}

} // verus!
