//! Multivectors of the conformal geometric algebra Cl(4,1) with exact
//! coefficients.
//!
//! The 32 lanes are indexed by blade mask: lane 0 is the scalar, lanes 1, 2, 4,
//! 8 and 16 are the vectors e1, e2, e3, e+ and e-, lane 31 is the pseudoscalar.

use vstd::prelude::*;
use vstd::arithmetic::power2::{lemma2_to64, pow2};
use crate::dyadic::{same_ratio, scale_up, Dyadic};
use crate::model::{
    gp_lane, gp_term, lemma_dual_fits, wedge_lane, wedge_term, Mv, E1, E2, E3, E_MINUS, E_PLUS,
    LANE_LIMIT, PSEUDOSCALAR,
};
use crate::blade::{
    blade_grade, blade_sign, blade_xor, grade, lemma_blade_xor_cancel, lemma_reverse_parity,
    lemma_sign_is_unit, reverse_sign,
};
use crate::sums::sum_to;
use crate::tables::{gp_table, gp_triple, ProductEngine};

verus! {

/// A multivector: lane `i` holds the numerator of the coefficient on the blade
/// with mask `i`, and all lanes share the denominator `2^shift`.
#[derive(Clone, Copy, Debug)]
pub struct Multivector5D {
    pub lanes: [i64; 32],
    pub shift: u32,
}

impl View for Multivector5D {
    type V = Mv;

    open spec fn view(&self) -> Mv {
        Mv { coeffs: Seq::new(32, |i: int| self.lanes@[i] as int), shift: self.shift as nat }
    }
}

/// A bound on the absolute value of a product of two stored numerators:
/// 2^122 - 1.
pub const TERM_LIMIT: i128 = 0x3ff_ffff_ffff_ffff_ffff_ffff_ffff_ffff;

/// A signed product of two numerators within the limit is within the bound.
pub proof fn lemma_term_bound(sign: int, x: int, y: int)
    requires
        sign == 1 || sign == -1,
        -LANE_LIMIT <= x <= LANE_LIMIT,
        -LANE_LIMIT <= y <= LANE_LIMIT,
    ensures
        -LANE_LIMIT <= sign * x <= LANE_LIMIT,
        -TERM_LIMIT <= sign * x * y <= TERM_LIMIT,
{
    assert(-0x1fff_ffff_ffff_ffff <= sign * x <= 0x1fff_ffff_ffff_ffff
        && -0x3ff_ffff_ffff_ffff_ffff_ffff_ffff_ffff <= sign * x * y
        <= 0x3ff_ffff_ffff_ffff_ffff_ffff_ffff_ffff) by (nonlinear_arith)
        requires
            sign == 1 || sign == -1,
            -0x1fff_ffff_ffff_ffff <= x <= 0x1fff_ffff_ffff_ffff,
            -0x1fff_ffff_ffff_ffff <= y <= 0x1fff_ffff_ffff_ffff,
    ;
}

impl Multivector5D {
    /// Every numerator is within the limit that the products rely on.
    pub open spec fn wf(&self) -> bool {
        self@.fits()
    }

    /// The zero multivector.
    pub fn zero() -> (r: Self)
        ensures
            r@ == Mv::zero(),
            r.wf(),
    {
        let r = Self { lanes: [0i64; 32], shift: 0 };
        assert(r@.coeffs =~= Mv::zero().coeffs);
        r
    }

    /// The scalar `s`.
    pub fn new_scalar(s: Dyadic) -> (r: Self)
        requires
            Mv::scalar(s@).fits(),
        ensures
            r@ == Mv::scalar(s@),
    {
        let mut lanes = [0i64; 32];
        lanes[0] = s.mantissa;
        let r = Self { lanes, shift: s.shift };
        assert(r@.coeffs =~= Mv::scalar(s@).coeffs);
        r
    }

    /// The basis vector number `i`, counted from 1: e1, e2, e3, e+, e-. A number
    /// outside 1..=5 names no generator and gives the zero vector.
    pub fn e(i: usize) -> (r: Self)
        ensures
            r@ == Mv::basis(i as int),
            r.wf(),
    {
        let mut lanes = [0i64; 32];
        if i == 1 {
            lanes[E1] = 1;
        } else if i == 2 {
            lanes[E2] = 1;
        } else if i == 3 {
            lanes[E3] = 1;
        } else if i == 4 {
            lanes[E_PLUS] = 1;
        } else if i == 5 {
            lanes[E_MINUS] = 1;
        }
        let r = Self { lanes, shift: 0 };
        assert(r@.coeffs =~= Mv::basis(i as int).coeffs);
        r
    }

    /// The null vector at infinity, e+ + e-.
    pub fn n_inf() -> (r: Self)
        ensures
            r@ == Mv::n_inf(),
            r.wf(),
    {
        let mut lanes = [0i64; 32];
        lanes[E_MINUS] = 1;
        lanes[E_PLUS] = 1;
        let r = Self { lanes, shift: 0 };
        assert(r@.coeffs =~= Mv::n_inf().coeffs);
        r
    }

    /// The null vector at the origin, (e- - e+) / 2.
    pub fn n_o() -> (r: Self)
        ensures
            r@ == Mv::n_o(),
            r.wf(),
    {
        let mut lanes = [0i64; 32];
        lanes[E_MINUS] = 1;
        lanes[E_PLUS] = -1;
        let r = Self { lanes, shift: 1 };
        assert(r@.coeffs =~= Mv::n_o().coeffs);
        r
    }

    /// Whether two multivectors have the same coefficients as numbers,
    /// whatever their denominators.
    pub fn same_value(&self, other: &Self) -> (r: bool)
        ensures
            r == self@.same_value(other@),
    {
        let mut i: usize = 0;
        while i < 32
            invariant
                i <= 32,
                forall|j: int|
                    0 <= j < i ==> #[trigger] self@.coeffs[j] * pow2(other@.shift)
                        == other@.coeffs[j] * pow2(self@.shift),
            decreases 32 - i,
        {
            if !same_ratio(self.lanes[i], self.shift, other.lanes[i], other.shift) {
                assert(self@.coeffs[i as int] * pow2(other@.shift) != other@.coeffs[i as int]
                    * pow2(self@.shift));
                return false;
            }
            i = i + 1;
        }
        true
    }

    /// The lanes of `self` and `sign * other` brought over the larger of the
    /// two denominators and added.
    fn combine(&self, other: &Self, sign: i64) -> (r: Self)
        requires
            self.wf(),
            other.wf(),
            sign == 1 || sign == -1,
            if sign == 1 {
                self@.plus(other@).fits()
            } else {
                self@.minus(other@).fits()
            },
        ensures
            r@ == if sign == 1 {
                self@.plus(other@)
            } else {
                self@.minus(other@)
            },
    {
        let shift = if self.shift >= other.shift {
            self.shift
        } else {
            other.shift
        };
        let da = shift - self.shift;
        let db = shift - other.shift;
        let ghost want = if sign == 1 {
            self@.plus(other@)
        } else {
            self@.minus(other@)
        };
        let mut lanes = [0i64; 32];
        let mut i: usize = 0;
        while i < 32
            invariant
                i <= 32,
                self.wf(),
                other.wf(),
                sign == 1 || sign == -1,
                want.fits(),
                want == if sign == 1 {
                    self@.plus(other@)
                } else {
                    self@.minus(other@)
                },
                shift == self@.common_shift(other@),
                da == shift - self.shift,
                db == shift - other.shift,
                forall|j: int| 0 <= j < i ==> lanes@[j] == want.coeffs[j],
            decreases 32 - i,
        {
            proof {
                lemma2_to64();
                let x = self@.coeffs[i as int];
                let y = other@.coeffs[i as int];
                let fa = pow2(da as nat) as int;
                let fb = pow2(db as nat) as int;
                assert(-LANE_LIMIT <= want.coeffs[i as int] <= LANE_LIMIT);
                assert(want.coeffs[i as int] == x * fa + sign * (y * fb)) by (nonlinear_arith)
                    requires
                        sign == 1 || sign == -1,
                        want.coeffs[i as int] == if sign == 1 {
                            x * fa + y * fb
                        } else {
                            x * fa - y * fb
                        },
                ;
                if da == 0 {
                    assert(x * fa == x) by (nonlinear_arith)
                        requires
                            fa == 1,
                    ;
                }
                if db == 0 {
                    assert(y * fb == y) by (nonlinear_arith)
                        requires
                            fb == 1,
                    ;
                }
            }
            let x = scale_up(self.lanes[i], da);
            let y = scale_up(other.lanes[i], db);
            lanes[i] = (x + sign as i128 * y) as i64;
            i = i + 1;
        }
        let r = Self { lanes, shift };
        assert(r@.coeffs =~= want.coeffs);
        r
    }

    /// The sum of two multivectors.
    pub fn add(&self, other: &Self) -> (r: Self)
        requires
            self.wf(),
            other.wf(),
            self@.plus(other@).fits(),
        ensures
            r@ == self@.plus(other@),
    {
        self.combine(other, 1)
    }

    /// The difference of two multivectors.
    pub fn sub(&self, other: &Self) -> (r: Self)
        requires
            self.wf(),
            other.wf(),
            self@.minus(other@).fits(),
        ensures
            r@ == self@.minus(other@),
    {
        self.combine(other, -1)
    }

    /// The multiple by the scalar `s`.
    pub fn scale(&self, s: Dyadic) -> (r: Self)
        requires
            self.wf(),
            self@.scaled(s@).fits(),
        ensures
            r@ == self@.scaled(s@),
    {
        let ghost want = self@.scaled(s@);
        let mut lanes = [0i64; 32];
        let mut i: usize = 0;
        while i < 32
            invariant
                i <= 32,
                self.wf(),
                want.fits(),
                want == self@.scaled(s@),
                forall|j: int| 0 <= j < i ==> lanes@[j] == want.coeffs[j],
            decreases 32 - i,
        {
            proof {
                assert(-LANE_LIMIT <= want.coeffs[i as int] <= LANE_LIMIT);
            }
            let wide: i128 = (self.lanes[i] as i128) * (s.mantissa as i128);
            lanes[i] = wide as i64;
            i = i + 1;
        }
        let r = Self { lanes, shift: self.shift + s.shift };
        assert(r@.coeffs =~= want.coeffs);
        r
    }

    /// The restricted inner product: the bilinear form on the scalar lane and
    /// the five vector lanes, with signature (+, +, +, +, -).
    pub fn inner_product(&self, other: &Self) -> (r: Dyadic)
        requires
            self.wf(),
            other.wf(),
            self@.inner(other@).fits(),
        ensures
            r@ == self@.inner(other@),
    {
        proof {
            assert forall|i: int| 0 <= i < 32 implies -TERM_LIMIT <= #[trigger] self@.coeffs[i]
                * other@.coeffs[i] <= TERM_LIMIT by {
                let x = self@.coeffs[i];
                let y = other@.coeffs[i];
                lemma_term_bound(1, x, y);
                assert(1 * x * y == x * y) by (nonlinear_arith);
            }
            assert(self@.coeffs[0] == self.lanes@[0]);
            assert(self@.coeffs[1] == self.lanes@[1]);
            assert(self@.coeffs[2] == self.lanes@[2]);
            assert(self@.coeffs[4] == self.lanes@[4]);
            assert(self@.coeffs[8] == self.lanes@[8]);
            assert(self@.coeffs[16] == self.lanes@[16]);
            assert(other@.coeffs[0] == other.lanes@[0]);
            assert(other@.coeffs[1] == other.lanes@[1]);
            assert(other@.coeffs[2] == other.lanes@[2]);
            assert(other@.coeffs[4] == other.lanes@[4]);
            assert(other@.coeffs[8] == other.lanes@[8]);
            assert(other@.coeffs[16] == other.lanes@[16]);
        }
        let mut dot: i128 = (self.lanes[0] as i128) * (other.lanes[0] as i128);
        dot = dot + (self.lanes[E1] as i128) * (other.lanes[E1] as i128);
        dot = dot + (self.lanes[E2] as i128) * (other.lanes[E2] as i128);
        dot = dot + (self.lanes[E3] as i128) * (other.lanes[E3] as i128);
        dot = dot + (self.lanes[E_PLUS] as i128) * (other.lanes[E_PLUS] as i128);
        dot = dot - (self.lanes[E_MINUS] as i128) * (other.lanes[E_MINUS] as i128);
        Dyadic { mantissa: dot as i64, shift: self.shift + other.shift }
    }

    /// The geometric product, computed bucket by bucket from the flattened
    /// table of the engine: lane `k` is the sum of `sign * self[a] * other[b]`
    /// over the 32 triples of bucket `k`.
    pub fn geometric_product(&self, other: &Self, engine: &ProductEngine) -> (r: Self)
        requires
            self.wf(),
            other.wf(),
            self@.gp(other@).fits(),
        ensures
            r@ == self@.gp(other@),
    {
        let ghost want = self@.gp(other@);
        let mut lanes = [0i64; 32];
        let mut idx: usize = 0;
        let mut k: usize = 0;
        while k < 32
            invariant
                k <= 32,
                idx == 32 * k,
                self.wf(),
                other.wf(),
                want.fits(),
                want == self@.gp(other@),
                forall|t: int| 0 <= t < k ==> lanes@[t] == want.coeffs[t],
            decreases 32 - k,
        {
            let mut acc: i128 = 0;
            let mut j: usize = 0;
            while j < 32
                invariant
                    k < 32,
                    j <= 32,
                    idx == 32 * k + j,
                    self.wf(),
                    other.wf(),
                    acc == sum_to(
                        j as int,
                        |i: int| gp_term(self@.coeffs, other@.coeffs, k as int, i),
                    ),
                    -j * TERM_LIMIT <= acc <= j * TERM_LIMIT,
                decreases 32 - j,
            {
                let (sign, a, b) = engine.triple(idx);
                proof {
                    assert(gp_table()[idx as int] == gp_triple(idx as int));
                    assert(a == j && b == blade_xor(j as int, k as int));
                    assert(sign == blade_sign(j as int, blade_xor(j as int, k as int)));
                    assert(self@.coeffs[a as int] == self.lanes@[a as int]);
                    assert(other@.coeffs[b as int] == other.lanes@[b as int]);
                    lemma_term_bound(
                        sign as int,
                        self.lanes@[a as int] as int,
                        other.lanes@[b as int] as int,
                    );
                }
                acc = acc + (sign as i128) * (self.lanes[a] as i128) * (other.lanes[b] as i128);
                idx = idx + 1;
                j = j + 1;
            }
            proof {
                assert(acc == gp_lane(self@.coeffs, other@.coeffs, k as int));
                assert(want.coeffs[k as int] == acc);
            }
            lanes[k] = acc as i64;
            k = k + 1;
        }
        let r = Self { lanes, shift: self.shift + other.shift };
        assert(r@.coeffs =~= want.coeffs);
        r
    }

    /// The outer product: every pair of lanes is looked up in the
    /// multiplication table, and its product is added to the lane of the
    /// result blade only where the grades of the two factors add up to the
    /// grade of that blade.
    pub fn wedge(&self, other: &Self, engine: &ProductEngine) -> (r: Self)
        requires
            self.wf(),
            other.wf(),
            self@.wedge(other@).fits(),
        ensures
            r@ == self@.wedge(other@),
    {
        let ghost want = self@.wedge(other@);
        let ghost sa = self@.coeffs;
        let ghost sb = other@.coeffs;
        let mut acc = [0i128; 32];
        let mut i: usize = 0;
        while i < 32
            invariant
                i <= 32,
                self.wf(),
                other.wf(),
                sa == self@.coeffs,
                sb == other@.coeffs,
                forall|k: int|
                    0 <= k < 32 ==> #[trigger] acc@[k] == sum_to(
                        i as int,
                        |t: int| wedge_term(sa, sb, k, t),
                    ),
                forall|k: int|
                    0 <= k < 32 ==> -i * TERM_LIMIT <= #[trigger] acc@[k] <= i * TERM_LIMIT,
            decreases 32 - i,
        {
            let a_val = self.lanes[i];
            let grade_a = grade(i);
            let ghost before = acc@;
            proof {
                assert forall|k: int| 0 <= k < 32 implies -TERM_LIMIT <= #[trigger] wedge_term(
                    sa,
                    sb,
                    k,
                    i as int,
                ) <= TERM_LIMIT by {
                    lemma_blade_xor_cancel(i as int, k);
                    let j = blade_xor(i as int, k);
                    assert(-LANE_LIMIT <= self@.coeffs[i as int] <= LANE_LIMIT);
                    assert(-LANE_LIMIT <= other@.coeffs[j] <= LANE_LIMIT);
                    lemma_sign_is_unit(i as int, j);
                    lemma_term_bound(blade_sign(i as int, j), sa[i as int], sb[j]);
                }
            }
            let mut j: usize = 0;
            while j < 32
                invariant
                    i < 32,
                    j <= 32,
                    self.wf(),
                    other.wf(),
                    sa == self@.coeffs,
                    sb == other@.coeffs,
                    a_val == self.lanes@[i as int],
                    grade_a == blade_grade(i as int),
                    before.len() == 32,
                    forall|k: int|
                        0 <= k < 32 ==> -i * TERM_LIMIT <= #[trigger] before[k] <= i * TERM_LIMIT,
                    forall|k: int|
                        0 <= k < 32 ==> #[trigger] acc@[k] == before[k] + if blade_xor(i as int, k)
                            < j {
                            wedge_term(sa, sb, k, i as int)
                        } else {
                            0
                        },
                    forall|k: int|
                        0 <= k < 32 ==> -TERM_LIMIT <= #[trigger] wedge_term(sa, sb, k, i as int)
                            <= TERM_LIMIT,
                decreases 32 - j,
            {
                let b_val = other.lanes[j];
                let grade_b = grade(j);
                let (sign, k) = engine.cayley().entry(i, j);
                let grade_res = grade(k);
                proof {
                    lemma_blade_xor_cancel(i as int, j as int);
                    assert(blade_xor(i as int, k as int) == j);
                    assert(sa[i as int] == a_val);
                    assert(sb[j as int] == b_val);
                    assert forall|t: int| 0 <= t < 32 && t != k implies blade_xor(i as int, t)
                        != j by {
                        lemma_blade_xor_cancel(i as int, t);
                    }
                    lemma_term_bound(sign as int, a_val as int, b_val as int);
                }
                if grade_res == grade_a + grade_b {
                    acc[k] = acc[k] + (sign as i128) * (a_val as i128) * (b_val as i128);
                }
                j = j + 1;
            }
            proof {
                assert forall|k: int| 0 <= k < 32 implies #[trigger] acc@[k] == sum_to(
                    i as int + 1,
                    |t: int| wedge_term(sa, sb, k, t),
                ) by {
                    lemma_blade_xor_cancel(i as int, k);
                }
            }
            i = i + 1;
        }
        let mut lanes = [0i64; 32];
        let mut k: usize = 0;
        while k < 32
            invariant
                k <= 32,
                want.fits(),
                want == self@.wedge(other@),
                sa == self@.coeffs,
                sb == other@.coeffs,
                forall|t: int|
                    0 <= t < 32 ==> #[trigger] acc@[t] == sum_to(
                        32,
                        |u: int| wedge_term(sa, sb, t, u),
                    ),
                forall|t: int| 0 <= t < k ==> lanes@[t] == want.coeffs[t],
            decreases 32 - k,
        {
            proof {
                assert(acc@[k as int] == wedge_lane(sa, sb, k as int));
                assert(want.coeffs[k as int] == acc@[k as int]);
            }
            lanes[k] = acc[k] as i64;
            k = k + 1;
        }
        let r = Self { lanes, shift: self.shift + other.shift };
        assert(r@.coeffs =~= want.coeffs);
        r
    }

    /// The dual: the product with the inverse of the pseudoscalar.
    pub fn dual(&self, engine: &ProductEngine) -> (r: Self)
        requires
            self.wf(),
        ensures
            r@ == self@.dual(),
            r.wf(),
    {
        let mut lanes = [0i64; 32];
        lanes[PSEUDOSCALAR] = -1;
        let i_inv = Self { lanes, shift: 0 };
        proof {
            assert(i_inv@.coeffs =~= Mv::single(PSEUDOSCALAR as int, -1, 0).coeffs);
            lemma_dual_fits(self@);
        }
        self.geometric_product(&i_inv, engine)
    }

    /// The sandwich product `versor * self * reverse(versor)`.
    pub fn transform(&self, versor: &Self, engine: &ProductEngine) -> (r: Self)
        requires
            self.wf(),
            versor.wf(),
            versor@.gp(self@).fits(),
            self@.transform(versor@).fits(),
        ensures
            r@ == self@.transform(versor@),
    {
        let rev = versor.reverse();
        versor.geometric_product(self, engine).geometric_product(&rev, engine)
    }

    /// Reversion: the lanes of grade 2 and 3 change sign, as those are the
    /// grades k for which k(k-1)/2 is odd.
    pub fn reverse(&self) -> (r: Self)
        requires
            self.wf(),
        ensures
            r@ == self@.reverse(),
            r.wf(),
    {
        let mut res = *self;
        let mut i: usize = 0;
        while i < 32
            invariant
                i <= 32,
                self.wf(),
                res.shift == self.shift,
                forall|j: int| 0 <= j < i ==> res.lanes@[j] == reverse_sign(j) * self.lanes@[j],
                forall|j: int| i <= j < 32 ==> res.lanes@[j] == self.lanes@[j],
            decreases 32 - i,
        {
            let k = grade(i);
            proof {
                lemma_reverse_parity(i as int);
                assert(-LANE_LIMIT <= self@.coeffs[i as int] <= LANE_LIMIT);
            }
            if k == 2 || k == 3 {
                res.lanes[i] = -res.lanes[i];
            }
            i = i + 1;
        }
        assert(res@.coeffs =~= self@.reverse().coeffs);
        assert forall|j: int| 0 <= j < 32 implies -LANE_LIMIT <= #[trigger] res@.coeffs[j]
            <= LANE_LIMIT by {
            lemma_reverse_parity(j);
            assert(-LANE_LIMIT <= self@.coeffs[j] <= LANE_LIMIT);
            let r = reverse_sign(j);
            let x = self@.coeffs[j];
            assert(res@.coeffs[j] == r * x);
            assert(r * x == x || r * x == -x) by (nonlinear_arith)
                requires
                    r == 1 || r == -1,
            ;
        }
        res
    }
}

} // verus!
