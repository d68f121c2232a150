//! The mathematical model of a multivector: 32 exact coefficients, one for each
//! basis blade, over a common power of two as denominator.

use vstd::prelude::*;
use vstd::arithmetic::power2::pow2;
use crate::blade::{
    blade_grade, blade_sign, blade_xor, lemma_blade_xor_cancel, lemma_low_grades,
    lemma_sign_is_unit, reverse_sign,
};
use crate::dyadic::Dy;
use crate::sums::{lemma_sum_bound, lemma_sum_single, lemma_sum_zero, sum_to};

verus! {

/// The largest absolute value of a numerator that a stored multivector holds:
/// 2^61 - 1, so that a sum of 32 products of two numerators stays within 128
/// bits.
pub const LANE_LIMIT: i64 = 0x1fff_ffff_ffff_ffff;

/// The blade e1.
pub const E1: usize = 1;

/// The blade e2.
pub const E2: usize = 2;

/// The blade e3.
pub const E3: usize = 4;

/// The blade e+, the fourth generator, which squares to +1.
pub const E_PLUS: usize = 8;

/// The blade e-, the fifth generator, which squares to -1.
pub const E_MINUS: usize = 16;

/// The pseudoscalar, the blade of all five generators.
pub const PSEUDOSCALAR: usize = 31;

/// A multivector whose coefficient on blade `i` is `coeffs[i] / 2^shift`.
pub struct Mv {
    pub coeffs: Seq<int>,
    pub shift: nat,
}

/// The term that the blades `i` of `a` and `i xor k` of `b` add to the
/// coefficient of the geometric product on blade `k`.
pub open spec fn gp_term(a: Seq<int>, b: Seq<int>, k: int, i: int) -> int {
    blade_sign(i, blade_xor(i, k)) * a[i] * b[blade_xor(i, k)]
}

/// The coefficient of the geometric product of `a` and `b` on blade `k`: the
/// sum over all pairs of blades whose product is blade `k`.
pub open spec fn gp_lane(a: Seq<int>, b: Seq<int>, k: int) -> int {
    sum_to(32, |i: int| gp_term(a, b, k, i))
}

/// Whether the product of blade `i` with the blade that takes it to `k` adds
/// grades, so that it belongs to the outer product.
pub open spec fn grades_add(k: int, i: int) -> bool {
    blade_grade(k) == blade_grade(i) + blade_grade(blade_xor(i, k))
}

/// The term that blade `i` of `a` adds to the outer product on blade `k`.
pub open spec fn wedge_term(a: Seq<int>, b: Seq<int>, k: int, i: int) -> int {
    if grades_add(k, i) {
        gp_term(a, b, k, i)
    } else {
        0
    }
}

/// The coefficient of the outer product of `a` and `b` on blade `k`.
pub open spec fn wedge_lane(a: Seq<int>, b: Seq<int>, k: int) -> int {
    sum_to(32, |i: int| wedge_term(a, b, k, i))
}

impl Mv {
    /// A multivector has one coefficient for each of the 32 blades.
    pub open spec fn valid(self) -> bool {
        self.coeffs.len() == 32
    }

    /// Whether the multivector can be stored as it stands: every numerator
    /// within the limit, and the exponent of the denominator within 32 bits.
    pub open spec fn fits(self) -> bool {
        &&& self.coeffs.len() == 32
        &&& self.shift <= u32::MAX
        &&& forall|i: int| 0 <= i < 32 ==> -LANE_LIMIT <= #[trigger] self.coeffs[i] <= LANE_LIMIT
    }

    /// The multivector with all coefficients zero.
    pub open spec fn zero() -> Mv {
        Mv { coeffs: Seq::new(32, |i: int| 0int), shift: 0 }
    }

    /// The multivector `m / 2^shift` on blade `blade`, zero elsewhere.
    pub open spec fn single(blade: int, m: int, shift: nat) -> Mv {
        Mv { coeffs: Seq::new(32, |i: int| if i == blade { m } else { 0int }), shift }
    }

    /// The scalar `s` as a multivector.
    pub open spec fn scalar(s: Dy) -> Mv {
        Mv::single(0, s.m, s.shift)
    }

    /// The basis vector number `i`, counted from 1: e1, e2, e3, e+, e-. Any
    /// other number gives the zero vector.
    pub open spec fn basis(i: int) -> Mv {
        if i == 1 {
            Mv::single(E1 as int, 1, 0)
        } else if i == 2 {
            Mv::single(E2 as int, 1, 0)
        } else if i == 3 {
            Mv::single(E3 as int, 1, 0)
        } else if i == 4 {
            Mv::single(E_PLUS as int, 1, 0)
        } else if i == 5 {
            Mv::single(E_MINUS as int, 1, 0)
        } else {
            Mv::zero()
        }
    }

    /// The null vector at infinity, e+ + e-.
    pub open spec fn n_inf() -> Mv {
        Mv {
            coeffs: Seq::new(32, |i: int| if i == E_PLUS || i == E_MINUS { 1int } else { 0int }),
            shift: 0,
        }
    }

    /// The null vector at the origin, (e- - e+) / 2.
    pub open spec fn n_o() -> Mv {
        Mv {
            coeffs: Seq::new(
                32,
                |i: int|
                    if i == E_PLUS {
                        -1int
                    } else if i == E_MINUS {
                        1int
                    } else {
                        0int
                    },
            ),
            shift: 1,
        }
    }

    /// The larger of the two exponents: the one that a sum or difference has.
    pub open spec fn common_shift(self, other: Mv) -> nat {
        if self.shift >= other.shift {
            self.shift
        } else {
            other.shift
        }
    }

    /// The sum, over the larger of the two denominators.
    pub open spec fn plus(self, other: Mv) -> Mv {
        let shift = self.common_shift(other);
        Mv {
            coeffs: Seq::new(
                32,
                |i: int|
                    self.coeffs[i] * pow2((shift - self.shift) as nat) + other.coeffs[i] * pow2(
                        (shift - other.shift) as nat,
                    ),
            ),
            shift,
        }
    }

    /// The difference, over the larger of the two denominators.
    pub open spec fn minus(self, other: Mv) -> Mv {
        let shift = self.common_shift(other);
        Mv {
            coeffs: Seq::new(
                32,
                |i: int|
                    self.coeffs[i] * pow2((shift - self.shift) as nat) - other.coeffs[i] * pow2(
                        (shift - other.shift) as nat,
                    ),
            ),
            shift,
        }
    }

    /// The multiple by the scalar `s`.
    pub open spec fn scaled(self, s: Dy) -> Mv {
        Mv { coeffs: Seq::new(32, |i: int| self.coeffs[i] * s.m), shift: self.shift + s.shift }
    }

    /// The geometric product.
    pub open spec fn gp(self, other: Mv) -> Mv {
        Mv {
            coeffs: Seq::new(32, |k: int| gp_lane(self.coeffs, other.coeffs, k)),
            shift: self.shift + other.shift,
        }
    }

    /// The outer product: the part of the geometric product in which grades add.
    pub open spec fn wedge(self, other: Mv) -> Mv {
        Mv {
            coeffs: Seq::new(32, |k: int| wedge_lane(self.coeffs, other.coeffs, k)),
            shift: self.shift + other.shift,
        }
    }

    /// Reversion: every blade with its generators in the opposite order.
    pub open spec fn reverse(self) -> Mv {
        Mv { coeffs: Seq::new(32, |k: int| reverse_sign(k) * self.coeffs[k]), shift: self.shift }
    }

    /// The restricted inner product: the bilinear form on the scalar and the
    /// five vector coefficients, with e- counted negatively.
    pub open spec fn inner(self, other: Mv) -> Dy {
        Dy {
            m: self.coeffs[0] * other.coeffs[0] + self.coeffs[E1 as int] * other.coeffs[E1 as int]
                + self.coeffs[E2 as int] * other.coeffs[E2 as int] + self.coeffs[E3 as int]
                * other.coeffs[E3 as int] + self.coeffs[E_PLUS as int] * other.coeffs[E_PLUS as int]
                - self.coeffs[E_MINUS as int] * other.coeffs[E_MINUS as int],
            shift: self.shift + other.shift,
        }
    }

    /// The dual: the product with the inverse of the pseudoscalar, which for
    /// this signature is the pseudoscalar with coefficient -1.
    pub open spec fn dual(self) -> Mv {
        self.gp(Mv::single(PSEUDOSCALAR as int, -1, 0))
    }

    /// The sandwich product of `self` between `versor` and its reverse.
    pub open spec fn transform(self, versor: Mv) -> Mv {
        versor.gp(self).gp(versor.reverse())
    }

    /// The conformal point of the coordinate (x, y):
    /// n_o + x e1 + y e2 + (x^2 + y^2) / 2 n_inf.
    pub open spec fn point(x: Dy, y: Dy) -> Mv {
        let half_square = x.times(x).plus(y.times(y)).halved();
        Mv::n_o().plus(Mv::basis(1).scaled(x)).plus(Mv::basis(2).scaled(y)).plus(
            Mv::n_inf().scaled(half_square),
        )
    }

    /// Whether every step in building the point of (x, y) can be stored.
    pub open spec fn point_fits(x: Dy, y: Dy) -> bool {
        let xx = x.times(x);
        let yy = y.times(y);
        let t1 = Mv::basis(1).scaled(x);
        let t2 = Mv::basis(2).scaled(y);
        let t3 = Mv::n_inf().scaled(xx.plus(yy).halved());
        &&& xx.fits()
        &&& yy.fits()
        &&& xx.plus(yy).fits()
        &&& xx.plus(yy).halved().fits()
        &&& t1.fits()
        &&& t2.fits()
        &&& t3.fits()
        &&& Mv::n_o().plus(t1).fits()
        &&& Mv::n_o().plus(t1).plus(t2).fits()
        &&& Mv::n_o().plus(t1).plus(t2).plus(t3).fits()
    }

    /// The displacement (dx, dy) as a vector: dx e1 + dy e2.
    pub open spec fn displacement(dx: Dy, dy: Dy) -> Mv {
        Mv::basis(1).scaled(dx).plus(Mv::basis(2).scaled(dy))
    }

    /// The translator of the displacement d = (dx, dy): 1 - d n_inf / 2.
    pub open spec fn translator(dx: Dy, dy: Dy) -> Mv {
        Mv::scalar(Dy::whole(1)).minus(
            Mv::displacement(dx, dy).gp(Mv::n_inf()).scaled(Dy::whole(1).halved()),
        )
    }

    /// Whether every step in building the translator of (dx, dy) can be
    /// stored.
    pub open spec fn translator_fits(dx: Dy, dy: Dy) -> bool {
        let t1 = Mv::basis(1).scaled(dx);
        let t2 = Mv::basis(2).scaled(dy);
        let d = t1.plus(t2);
        let dn = d.gp(Mv::n_inf());
        let half = dn.scaled(Dy::whole(1).halved());
        &&& t1.fits()
        &&& t2.fits()
        &&& d.fits()
        &&& dn.fits()
        &&& half.fits()
        &&& Mv::scalar(Dy::whole(1)).minus(half).fits()
    }

    /// The line through the point `self` along e1: self ^ e1 ^ n_inf.
    pub open spec fn rook_blade(self) -> Mv {
        self.wedge(Mv::basis(1)).wedge(Mv::n_inf())
    }

    /// The line through the point `self` along the diagonal e1 + e2:
    /// self ^ (e1 + e2) ^ n_inf.
    pub open spec fn bishop_blade(self) -> Mv {
        self.wedge(Mv::basis(1).plus(Mv::basis(2))).wedge(Mv::n_inf())
    }

    /// The sum of the rook blade and the bishop blade.
    pub open spec fn queen_blade(self) -> Mv {
        self.rook_blade().plus(self.bishop_blade())
    }

    /// Whether every numerator is within `bound` in absolute value.
    pub open spec fn bounded(self, bound: int) -> bool {
        forall|i: int| 0 <= i < 32 ==> -bound <= #[trigger] self.coeffs[i] <= bound
    }

    /// Whether the multivector has no part of a grade below `g`.
    pub open spec fn min_grade(self, g: int) -> bool {
        forall|i: int| 0 <= i < 32 && blade_grade(i) < g ==> #[trigger] self.coeffs[i] == 0
    }

    /// Whether two multivectors have the same coefficients as numbers.
    pub open spec fn same_value(self, other: Mv) -> bool {
        forall|i: int|
            0 <= i < 32 ==> #[trigger] self.coeffs[i] * pow2(other.shift) == other.coeffs[i] * pow2(
                self.shift,
            )
    }

}

/// Every term of a product of multivectors with numerators within `ma` and
/// `mb` is within `ma * mb`, so every coefficient of their geometric product
/// and of their outer product is within `32 * ma * mb`.
pub proof fn lemma_product_bound(a: Mv, b: Mv, ma: int, mb: int)
    requires
        a.valid(),
        b.valid(),
        0 <= ma,
        0 <= mb,
        a.bounded(ma),
        b.bounded(mb),
    ensures
        a.gp(b).bounded(32 * (ma * mb)),
        a.wedge(b).bounded(32 * (ma * mb)),
{
    let m = ma * mb;
    assert(0 <= m) by (nonlinear_arith)
        requires
            m == ma * mb,
            0 <= ma,
            0 <= mb,
    ;
    assert forall|k: int| 0 <= k < 32 implies -(32 * m) <= #[trigger] gp_lane(
        a.coeffs,
        b.coeffs,
        k,
    ) <= 32 * m && -(32 * m) <= wedge_lane(a.coeffs, b.coeffs, k) <= 32 * m by {
        let f = |i: int| gp_term(a.coeffs, b.coeffs, k, i);
        let w = |i: int| wedge_term(a.coeffs, b.coeffs, k, i);
        assert forall|i: int| 0 <= i < 32 implies -m <= #[trigger] f(i) <= m by {
            lemma_blade_xor_cancel(i, k);
            let j = blade_xor(i, k);
            let s = blade_sign(i, j);
            lemma_sign_is_unit(i, j);
            let x = a.coeffs[i];
            let y = b.coeffs[j];
            assert(-m <= s * x * y <= m) by (nonlinear_arith)
                requires
                    s == 1 || s == -1,
                    -ma <= x <= ma,
                    -mb <= y <= mb,
                    m == ma * mb,
            ;
        }
        assert forall|i: int| 0 <= i < 32 implies -m <= #[trigger] w(i) <= m by {
            assert(w(i) == 0 || w(i) == f(i));
        }
        lemma_sum_bound(32, m, f);
        lemma_sum_bound(32, m, w);
    }
    assert forall|k: int| 0 <= k < 32 implies -(32 * m) <= #[trigger] a.gp(b).coeffs[k] <= 32
        * m by {
        assert(a.gp(b).coeffs[k] == gp_lane(a.coeffs, b.coeffs, k));
    }
    assert forall|k: int| 0 <= k < 32 implies -(32 * m) <= #[trigger] a.wedge(b).coeffs[k] <= 32
        * m by {
        assert(-(32 * m) <= gp_lane(a.coeffs, b.coeffs, k));
        assert(a.wedge(b).coeffs[k] == wedge_lane(a.coeffs, b.coeffs, k));
    }
}

/// The dual of a multivector holds, up to sign, the coefficients of the
/// complementary blades, so it can be stored whenever the multivector can.
pub proof fn lemma_dual_fits(a: Mv)
    requires
        a.fits(),
    ensures
        a.dual().fits(),
        forall|k: int|
            0 <= k < 32 ==> #[trigger] a.dual().coeffs[k] == -blade_sign(blade_xor(k, 31), 31)
                * a.coeffs[blade_xor(k, 31)],
{
    let unit = Mv::single(PSEUDOSCALAR as int, -1, 0);
    assert forall|k: int| 0 <= k < 32 implies #[trigger] a.dual().coeffs[k] == -blade_sign(
        blade_xor(k, 31),
        31,
    ) * a.coeffs[blade_xor(k, 31)] && -LANE_LIMIT <= a.dual().coeffs[k] <= LANE_LIMIT by {
        let p = blade_xor(k, 31);
        lemma_blade_xor_cancel(k, 31);
        lemma_blade_xor_cancel(p, k);
        lemma_blade_xor_cancel(31, k);
        let f = |i: int| gp_term(a.coeffs, unit.coeffs, k, i);
        assert forall|i: int| 0 <= i < 32 && i != p implies #[trigger] f(i) == 0 by {
            lemma_blade_xor_cancel(i, k);
            lemma_blade_xor_cancel(k, i);
            let j = blade_xor(i, k);
            if j == 31 {
                assert(blade_xor(k, j) == i);
            }
            assert(unit.coeffs[j] == 0);
            let s = blade_sign(i, j);
            let x = a.coeffs[i];
            assert(s * x * 0 == 0) by (nonlinear_arith);
        }
        lemma_sum_single(32, p, f);
        assert(blade_xor(p, k) == 31);
        let s = blade_sign(p, 31);
        let x = a.coeffs[p];
        lemma_sign_is_unit(p, 31);
        assert(unit.coeffs[31] == -1);
        assert(s * x * (-1) == -s * x && (-s * x == x || -s * x == -x)) by (nonlinear_arith)
            requires
                s == 1 || s == -1,
        ;
    }
}

/// The outer product adds grades: where `a` has no part below grade `ga` and
/// `b` none below `gb`, their outer product has none below `ga + gb`.
pub proof fn lemma_wedge_min_grade(a: Mv, b: Mv, ga: int, gb: int)
    requires
        a.valid(),
        b.valid(),
        a.min_grade(ga),
        b.min_grade(gb),
    ensures
        a.wedge(b).min_grade(ga + gb),
{
    assert forall|k: int| 0 <= k < 32 && blade_grade(k) < ga + gb implies #[trigger] a.wedge(
        b,
    ).coeffs[k] == 0 by {
        let w = |i: int| wedge_term(a.coeffs, b.coeffs, k, i);
        assert forall|i: int| 0 <= i < 32 implies #[trigger] w(i) == 0 by {
            lemma_blade_xor_cancel(i, k);
            let j = blade_xor(i, k);
            if grades_add(k, i) {
                let s = blade_sign(i, j);
                if blade_grade(i) < ga {
                    assert(a.coeffs[i] == 0);
                    let y = b.coeffs[j];
                    assert(s * 0 * y == 0) by (nonlinear_arith);
                } else {
                    assert(blade_grade(j) < gb);
                    assert(b.coeffs[j] == 0);
                    let x = a.coeffs[i];
                    assert(s * x * 0 == 0) by (nonlinear_arith);
                }
            }
        }
        lemma_sum_zero(32, w);
    }
}

/// A sum of multivectors without parts below grade `g` has none either.
pub proof fn lemma_plus_min_grade(a: Mv, b: Mv, g: int)
    requires
        a.min_grade(g),
        b.min_grade(g),
    ensures
        a.plus(b).min_grade(g),
{
    let fa = pow2((a.common_shift(b) - a.shift) as nat) as int;
    let fb = pow2((a.common_shift(b) - b.shift) as nat) as int;
    assert forall|i: int| 0 <= i < 32 && blade_grade(i) < g implies #[trigger] a.plus(b).coeffs[i]
        == 0 by {
        assert(a.coeffs[i] == 0 && b.coeffs[i] == 0);
        assert(0 * fa + 0 * fb == 0) by (nonlinear_arith);
    }
}

/// The restricted inner product reads the scalar and the vector part only, so
/// it vanishes on every multivector that has no part below grade 2.
pub proof fn lemma_inner_of_high_grade(a: Mv, q: Mv)
    requires
        a.min_grade(2),
    ensures
        a.inner(q).m == 0,
{
    lemma_low_grades();
    assert(a.coeffs[0] == 0 && a.coeffs[1] == 0 && a.coeffs[2] == 0 && a.coeffs[4] == 0
        && a.coeffs[8] == 0 && a.coeffs[16] == 0);
    let q0 = q.coeffs[0];
    let q1 = q.coeffs[1];
    let q2 = q.coeffs[2];
    let q4 = q.coeffs[4];
    let q8 = q.coeffs[8];
    let q16 = q.coeffs[16];
    assert(0 * q0 + 0 * q1 + 0 * q2 + 0 * q4 + 0 * q8 - 0 * q16 == 0) by (nonlinear_arith);
}

/// The lines of the sliding pieces are built by two outer products with
/// vectors, so they have no scalar and no vector part, and the restricted
/// inner product of such a line with any multivector is zero.
pub proof fn lemma_line_blades_inner(p: Mv, q: Mv)
    requires
        p.valid(),
    ensures
        p.rook_blade().inner(q).m == 0,
        p.bishop_blade().inner(q).m == 0,
        p.queen_blade().inner(q).m == 0,
        p.rook_blade().min_grade(2),
        p.bishop_blade().min_grade(2),
        p.queen_blade().min_grade(2),
{
    lemma_low_grades();
    let e1 = Mv::basis(1);
    let e2 = Mv::basis(2);
    let ninf = Mv::n_inf();
    assert(p.min_grade(0));
    assert(e1.min_grade(1));
    assert(e2.min_grade(1));
    assert(ninf.min_grade(1));
    lemma_plus_min_grade(e1, e2, 1);
    lemma_wedge_min_grade(p, e1, 0, 1);
    lemma_wedge_min_grade(p.wedge(e1), ninf, 1, 1);
    lemma_wedge_min_grade(p, e1.plus(e2), 0, 1);
    lemma_wedge_min_grade(p.wedge(e1.plus(e2)), ninf, 1, 1);
    lemma_plus_min_grade(p.rook_blade(), p.bishop_blade(), 2);
    lemma_inner_of_high_grade(p.rook_blade(), q);
    lemma_inner_of_high_grade(p.bishop_blade(), q);
    lemma_inner_of_high_grade(p.queen_blade(), q);
}

} // verus!
