//! Exact scalars: integers over a power of two.

use vstd::prelude::*;
use vstd::arithmetic::power2::{
    lemma2_to64, lemma2_to64_rest, lemma_pow2_adds, lemma_pow2_pos, lemma_pow2_strictly_increases,
    lemma_pow2_unfold, pow2,
};

verus! {

/// The mathematical model of a scalar: the number `m / 2^shift`.
pub struct Dy {
    pub m: int,
    pub shift: nat,
}

impl Dy {
    /// Whether the scalar can be held in a [`Dyadic`] as it stands.
    pub open spec fn fits(self) -> bool {
        i64::MIN <= self.m <= i64::MAX && self.shift <= u32::MAX
    }

    /// The integer `n`.
    pub open spec fn whole(n: int) -> Dy {
        Dy { m: n, shift: 0 }
    }

    /// The product of two scalars.
    pub open spec fn times(self, other: Dy) -> Dy {
        Dy { m: self.m * other.m, shift: self.shift + other.shift }
    }

    /// The sum of two scalars, over the larger of the two denominators.
    pub open spec fn plus(self, other: Dy) -> Dy {
        let shift = if self.shift >= other.shift {
            self.shift
        } else {
            other.shift
        };
        Dy {
            m: self.m * pow2((shift - self.shift) as nat) + other.m * pow2(
                (shift - other.shift) as nat,
            ),
            shift,
        }
    }

    /// Half the scalar.
    pub open spec fn halved(self) -> Dy {
        Dy { m: self.m, shift: self.shift + 1 }
    }

    /// The scalar with the opposite sign.
    pub open spec fn negated(self) -> Dy {
        Dy { m: -self.m, shift: self.shift }
    }

    /// Whether two scalars are the same number.
    pub open spec fn same_value(self, other: Dy) -> bool {
        self.m * pow2(other.shift) == other.m * pow2(self.shift)
    }

    /// Whether the absolute value of the scalar is less than `num / den`.
    pub open spec fn abs_below(self, num: int, den: int) -> bool {
        (if self.m < 0 {
            -self.m
        } else {
            self.m
        }) * den < num * pow2(self.shift)
    }
}

/// A scalar `mantissa / 2^shift`.
#[derive(Clone, Copy, Debug, PartialEq, Eq, Structural)]
pub struct Dyadic {
    pub mantissa: i64,
    pub shift: u32,
}

impl View for Dyadic {
    type V = Dy;

    open spec fn view(&self) -> Dy {
        Dy { m: self.mantissa as int, shift: self.shift as nat }
    }
}

/// The power of two with exponent `d`.
pub fn pow2_i128(d: u32) -> (r: i128)
    requires
        d <= 64,
    ensures
        r == pow2(d as nat),
{
    let mut r: i128 = 1;
    let mut i: u32 = 0;
    proof {
        lemma2_to64();
    }
    while i < d
        invariant
            i <= d <= 64,
            r == pow2(i as nat),
            pow2(64) == 0x10000000000000000,
        decreases d - i,
    {
        proof {
            lemma_pow2_unfold((i + 1) as nat);
            if i + 1 < 64 {
                lemma_pow2_strictly_increases((i + 1) as nat, 64);
            }
        }
        r = r * 2;
        i = i + 1;
    }
    r
}

/// 2^96 written out.
pub proof fn lemma_pow2_96()
    ensures
        pow2(96) == 0x1_0000_0000_0000_0000_0000_0000,
{
    lemma2_to64();
    lemma_pow2_adds(64, 32);
    assert(0x10000000000000000 * 0x100000000 == 0x1_0000_0000_0000_0000_0000_0000int)
        by (nonlinear_arith);
}

/// The power of two with exponent `d`, for exponents up to 96.
pub fn pow2_u128(d: u32) -> (r: u128)
    requires
        d <= 96,
    ensures
        r == pow2(d as nat),
{
    let mut r: u128 = 1;
    let mut i: u32 = 0;
    proof {
        lemma2_to64();
        lemma_pow2_96();
    }
    while i < d
        invariant
            i <= d <= 96,
            r == pow2(i as nat),
            pow2(96) == 0x1_0000_0000_0000_0000_0000_0000,
        decreases d - i,
    {
        proof {
            lemma_pow2_unfold((i + 1) as nat);
            if i + 1 < 96 {
                lemma_pow2_strictly_increases((i + 1) as nat, 96);
            }
        }
        r = r * 2;
        i = i + 1;
    }
    r
}

/// A power of two that is at most 2^64 has an exponent of at most 64.
pub proof fn lemma_pow2_bound(d: nat)
    requires
        pow2(d) <= 0x10000000000000000,
    ensures
        d <= 64,
{
    lemma2_to64();
    if d > 64 {
        lemma_pow2_strictly_increases(64, d);
    }
}

/// `m * 2^d`, where that product is within 65 bits.
pub fn scale_up(m: i64, d: u32) -> (r: i128)
    requires
        -0x10000000000000000 <= m * pow2(d as nat) <= 0x10000000000000000,
    ensures
        r == m * pow2(d as nat),
{
    if m == 0 {
        assert(0 * pow2(d as nat) == 0);
        0
    } else {
        proof {
            let p = pow2(d as nat) as int;
            assert(p <= 0x10000000000000000) by (nonlinear_arith)
                requires
                    -0x10000000000000000 <= m * p <= 0x10000000000000000,
                    m != 0,
                    p >= 0,
            ;
            lemma_pow2_bound(d as nat);
        }
        let p = pow2_i128(d);
        (m as i128) * p
    }
}

/// Whether `x * 2^d` is `y`.
pub fn scaled_equals(x: i64, d: u32, y: i64) -> (r: bool)
    ensures
        r == (x * pow2(d as nat) == y),
{
    if x == 0 {
        assert(0 * pow2(d as nat) == 0);
        y == 0
    } else if d > 63 {
        proof {
            lemma2_to64_rest();
            lemma_pow2_strictly_increases(63, d as nat);
            let p = pow2(d as nat) as int;
            assert(x * p > 0x8000_0000_0000_0000 || x * p < -0x8000_0000_0000_0000)
                by (nonlinear_arith)
                requires
                    x != 0,
                    p > 0x8000_0000_0000_0000,
            ;
        }
        false
    } else {
        proof {
            lemma2_to64();
            lemma2_to64_rest();
            if d < 63 {
                lemma_pow2_strictly_increases(d as nat, 63);
            }
            let p = pow2(d as nat) as int;
            assert(-0x8000_0000_0000_0000 * 0x8000_0000_0000_0000 <= x * p
                <= 0x8000_0000_0000_0000 * 0x8000_0000_0000_0000) by (nonlinear_arith)
                requires
                    -0x8000_0000_0000_0000 <= x <= 0x8000_0000_0000_0000,
                    0 <= p <= 0x8000_0000_0000_0000,
            ;
        }
        let p = pow2_i128(d);
        (x as i128) * p == y as i128
    }
}

/// Two ratios over powers of two are equal exactly when the one with the
/// smaller denominator, extended to the larger, has the other's numerator.
pub proof fn lemma_same_ratio(a: int, sa: nat, b: int, sb: nat)
    requires
        sa <= sb,
    ensures
        (a * pow2(sb) == b * pow2(sa)) == (a * pow2((sb - sa) as nat) == b),
{
    let d = (sb - sa) as nat;
    lemma_pow2_adds(sa, d);
    lemma_pow2_pos(sa);
    let p = pow2(sa) as int;
    let q = pow2(d) as int;
    let pq = pow2(sb) as int;
    assert((a * pq == b * p) == (a * q == b)) by (nonlinear_arith)
        requires
            pq == p * q,
            p > 0,
    ;
}

/// Whether `a / 2^sa` and `b / 2^sb` are the same number.
pub fn same_ratio(a: i64, sa: u32, b: i64, sb: u32) -> (r: bool)
    ensures
        r == (a * pow2(sb as nat) == b * pow2(sa as nat)),
{
    if sa <= sb {
        proof {
            lemma_same_ratio(a as int, sa as nat, b as int, sb as nat);
        }
        scaled_equals(a, sb - sa, b)
    } else {
        proof {
            lemma_same_ratio(b as int, sb as nat, a as int, sa as nat);
        }
        scaled_equals(b, sa - sb, a)
    }
}

/// Of two scalars brought over the larger of their denominators, one keeps its
/// numerator.
pub proof fn lemma_aligned_terms(a: Dy, b: Dy)
    ensures
        a.shift >= b.shift ==> a.m * pow2((a.plus(b).shift - a.shift) as nat) == a.m,
        b.shift >= a.shift ==> b.m * pow2((a.plus(b).shift - b.shift) as nat) == b.m,
{
    lemma2_to64();
    let one = pow2(0) as int;
    assert(a.m * one == a.m && b.m * one == b.m) by (nonlinear_arith)
        requires
            one == 1,
    ;
}

impl Dyadic {
    /// The scalar `mantissa / 2^shift`.
    pub fn new(mantissa: i64, shift: u32) -> (r: Dyadic)
        ensures
            r@ == (Dy { m: mantissa as int, shift: shift as nat }),
    {
        Dyadic { mantissa, shift }
    }

    /// The integer `n`.
    pub fn from_int(n: i64) -> (r: Dyadic)
        ensures
            r@ == Dy::whole(n as int),
    {
        Dyadic { mantissa: n, shift: 0 }
    }

    /// The product of two scalars.
    pub fn times(&self, other: &Dyadic) -> (r: Dyadic)
        requires
            self@.times(other@).fits(),
        ensures
            r@ == self@.times(other@),
    {
        let wide: i128 = (self.mantissa as i128) * (other.mantissa as i128);
        Dyadic { mantissa: wide as i64, shift: self.shift + other.shift }
    }

    /// The sum of two scalars.
    pub fn plus(&self, other: &Dyadic) -> (r: Dyadic)
        requires
            self@.plus(other@).fits(),
        ensures
            r@ == self@.plus(other@),
    {
        let shift = if self.shift >= other.shift {
            self.shift
        } else {
            other.shift
        };
        proof {
            lemma_aligned_terms(self@, other@);
        }
        let a = scale_up(self.mantissa, shift - self.shift);
        let b = scale_up(other.mantissa, shift - other.shift);
        Dyadic { mantissa: (a + b) as i64, shift }
    }

    /// Half the scalar.
    pub fn half(&self) -> (r: Dyadic)
        requires
            self.shift < u32::MAX,
        ensures
            r@ == self@.halved(),
    {
        Dyadic { mantissa: self.mantissa, shift: self.shift + 1 }
    }

    /// Whether two scalars are the same number.
    pub fn same_value(&self, other: &Dyadic) -> (r: bool)
        ensures
            r == self@.same_value(other@),
    {
        same_ratio(self.mantissa, self.shift, other.mantissa, other.shift)
    }

    /// Whether the absolute value of the scalar is less than `num / den`.
    pub fn abs_below(&self, num: u32, den: u32) -> (r: bool)
        ensures
            r == self@.abs_below(num as int, den as int),
    {
        let magnitude: u128 = if self.mantissa < 0 {
            (-(self.mantissa as i128)) as u128
        } else {
            self.mantissa as u128
        };
        assert(magnitude * den <= 0x8000_0000_0000_0000 * 0x1_0000_0000) by (nonlinear_arith)
            requires
                magnitude <= 0x8000_0000_0000_0000,
                den <= 0x1_0000_0000,
        ;
        let left: u128 = magnitude * (den as u128);
        proof {
            lemma_pow2_pos(self.shift as nat);
            lemma_pow2_96();
        }
        if num == 0 {
            assert(0 * pow2(self.shift as nat) == 0);
            false
        } else if self.shift >= 96 {
            proof {
                if self.shift > 96 {
                    lemma_pow2_strictly_increases(96, self.shift as nat);
                }
                let p = pow2(self.shift as nat) as int;
                assert(num * p >= p) by (nonlinear_arith)
                    requires
                        num >= 1,
                        p >= 0,
                ;
            }
            true
        } else {
            let power = pow2_u128(self.shift);
            proof {
                if self.shift < 95 {
                    lemma_pow2_strictly_increases(self.shift as nat, 95);
                }
                lemma_pow2_unfold(96);
                assert(num * power <= 0x1_0000_0000 * 0x8000_0000_0000_0000_0000_0000)
                    by (nonlinear_arith)
                    requires
                        num <= 0x1_0000_0000,
                        power <= 0x8000_0000_0000_0000_0000_0000,
                ;
            }
            left < (num as u128) * power
        }
    }

    /// The scalar with the opposite sign.
    pub fn negated(&self) -> (r: Dyadic)
        requires
            self.mantissa > i64::MIN,
        ensures
            r@ == self@.negated(),
    {
        Dyadic { mantissa: -self.mantissa, shift: self.shift }
    }
}

} // verus!
