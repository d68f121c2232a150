//! Translators move points: the sandwich product of a point with the
//! translator of a displacement is the point moved by that displacement.

use vstd::prelude::*;
use vstd::arithmetic::power2::{lemma2_to64, pow2};
use crate::blade::{has_gen, lemma_reverse_parity, reverse_sign};
use crate::conformal::{lattice_point, lemma_lattice_point_value};
use crate::dyadic::Dy;
use crate::model::{gp_lane, Mv};
use crate::sparse::{lemma_pair_terms, lemma_signs, lemma_sparse_product, supported};
use crate::sums::sum_to;

verus! {

/// The translator of the integer displacement (dx, dy), written out: over
/// the denominator 2 its numerators are 2 on the scalar, -dx on e1 e+ and
/// e1 e-, and -dy on e2 e+ and e2 e-.
pub open spec fn lattice_translator(dx: int, dy: int) -> Mv {
    Mv {
        coeffs: Seq::new(
            32,
            |i: int|
                if i == 0 {
                    2
                } else if i == 9 || i == 17 {
                    -dx
                } else if i == 10 || i == 18 {
                    -dy
                } else {
                    0
                },
        ),
        shift: 1,
    }
}

/// The product of the translator of (dx, dy) and the point of (x, y), written
/// out: the half-way stage of the sandwich product.
pub open spec fn half_moved(x: int, y: int, dx: int, dy: int) -> Mv {
    Mv {
        coeffs: Seq::new(
            32,
            |k: int|
                if k == 1 {
                    2 * dx + 4 * x
                } else if k == 2 {
                    2 * dy + 4 * y
                } else if k == 8 {
                    2 * dx * x + 2 * dy * y + 2 * x * x + 2 * y * y - 2
                } else if k == 11 || k == 19 {
                    2 * dx * y - 2 * dy * x
                } else if k == 16 {
                    2 * dx * x + 2 * dy * y + 2 * x * x + 2 * y * y + 2
                } else if k == 25 {
                    -2 * dx
                } else if k == 26 {
                    -2 * dy
                } else {
                    0
                },
        ),
        shift: 2,
    }
}

/// The translator built step by step from an integer displacement is the one
/// written out.
pub proof fn lemma_lattice_translator(dx: int, dy: int)
    ensures
        Mv::translator(Dy::whole(dx), Dy::whole(dy)) == lattice_translator(dx, dy),
{
    lemma2_to64();
    let one = pow2(0) as int;
    let two = pow2(1) as int;
    let d = Mv::displacement(Dy::whole(dx), Dy::whole(dy)).coeffs;
    assert forall|i: int| 0 <= i < 32 implies #[trigger] d[i] == (if i == 1 {
        dx
    } else if i == 2 {
        dy
    } else {
        0
    }) by {
        assert(1 * dx * one + 0 * dy * one == dx && 0 * dx * one + 1 * dy * one == dy && 0 * dx * one
            + 0 * dy * one == 0) by (nonlinear_arith)
            requires
                one == 1,
        ;
    }
    let n = Mv::n_inf().coeffs;
    let ps = seq![1int, 2];
    let qs = seq![8int, 16];
    assert(supported(d, ps)) by {
        assert forall|i: int| 0 <= i < 32 && !ps.contains(i) implies #[trigger] d[i] == 0 by {
            assert(ps[0] == 1 && ps[1] == 2);
        }
    }
    assert(supported(n, qs)) by {
        assert forall|i: int| 0 <= i < 32 && !qs.contains(i) implies #[trigger] n[i] == 0 by {
            assert(qs[0] == 8 && qs[1] == 16);
        }
    }
    assert(dx * 1 == dx && dy * 1 == dy) by (nonlinear_arith);
    assert forall|k: int| 0 <= k < 32 implies gp_lane(d, n, k) == (if k == 9 || k == 17 {
        dx
    } else if k == 10 || k == 18 {
        dy
    } else {
        0
    }) by {
        lemma_sparse_product(d, n, k, ps, qs);
        reveal_with_fuel(sum_to, 3);
        lemma_pair_terms(d, n);
        lemma_signs();
        reveal(has_gen);
    }
    let t = Mv::translator(Dy::whole(dx), Dy::whole(dy));
    assert forall|i: int| 0 <= i < 32 implies #[trigger] t.coeffs[i] == lattice_translator(
        dx,
        dy,
    ).coeffs[i] by {
        let g = gp_lane(d, n, i);
        assert(1 * two - g * 1 * one == 2 - g && 0 * two - g * 1 * one == -g) by (nonlinear_arith)
            requires
                one == 1,
                two == 2,
        ;
    }
    assert(t.coeffs =~= lattice_translator(dx, dy).coeffs);
}

/// The reverse of a translator is the translator of the opposite
/// displacement.
pub proof fn lemma_translator_reverse(dx: int, dy: int)
    ensures
        lattice_translator(dx, dy).reverse() == lattice_translator(-dx, -dy),
{
    let t = lattice_translator(dx, dy);
    assert(reverse_sign(0) == 1 && reverse_sign(9) == -1 && reverse_sign(17) == -1 && reverse_sign(10)
        == -1 && reverse_sign(18) == -1) by {
        reveal(has_gen);
        lemma_reverse_parity(0);
        lemma_reverse_parity(9);
        lemma_reverse_parity(17);
        lemma_reverse_parity(10);
        lemma_reverse_parity(18);
    }
    assert forall|i: int| 0 <= i < 32 implies #[trigger] t.reverse().coeffs[i] == lattice_translator(
        -dx,
        -dy,
    ).coeffs[i] by {
        let r = reverse_sign(i);
        assert(r * 0 == 0 && 1 * 2 == 2 && (-1) * (-dx) == dx && (-1) * (-dy) == dy)
            by (nonlinear_arith);
    }
    assert(t.reverse().coeffs =~= lattice_translator(-dx, -dy).coeffs);
}

/// The sums of products that make up the coefficients of the translator times
/// the point, where p1, p2, p8, p16 are the coefficients of the point.
proof fn lemma_half_moved_sums(
    x: int,
    y: int,
    dx: int,
    dy: int,
    p1: int,
    p2: int,
    p8: int,
    p16: int,
)
    by (nonlinear_arith)
    requires
        p1 == 2 * x,
        p2 == 2 * y,
        p8 == x * x + y * y - 1,
        p16 == x * x + y * y + 1,
    ensures
        2 * p1 + (-dx) * p8 - (-dx) * p16 == 2 * dx + 4 * x,
        2 * p2 + (-dy) * p8 - (-dy) * p16 == 2 * dy + 4 * y,
        2 * p8 - (-dx) * p1 - (-dy) * p2 == 2 * dx * x + 2 * dy * y + 2 * x * x + 2 * y * y - 2,
        -((-dx) * p2) + (-dy) * p1 == 2 * dx * y - 2 * dy * x,
        2 * p16 - (-dx) * p1 - (-dy) * p2 == 2 * dx * x + 2 * dy * y + 2 * x * x + 2 * y * y + 2,
        (-dx) * p16 - (-dx) * p8 == -2 * dx,
        (-dy) * p16 - (-dy) * p8 == -2 * dy,
{
}

/// The translator times the point is the half-way stage written out.
proof fn lemma_translator_times_point(x: int, y: int, dx: int, dy: int)
    ensures
        lattice_translator(dx, dy).gp(lattice_point(x, y)) == half_moved(x, y, dx, dy),
{
    let t = lattice_translator(dx, dy).coeffs;
    let p = lattice_point(x, y).coeffs;
    let ps = seq![0int, 9, 17, 10, 18];
    let qs = seq![1int, 2, 8, 16];
    assert(supported(t, ps)) by {
        assert forall|i: int| 0 <= i < 32 && !ps.contains(i) implies #[trigger] t[i] == 0 by {
            assert(ps[0] == 0 && ps[1] == 9 && ps[2] == 17 && ps[3] == 10 && ps[4] == 18);
        }
    }
    assert(supported(p, qs)) by {
        assert forall|i: int| 0 <= i < 32 && !qs.contains(i) implies #[trigger] p[i] == 0 by {
            assert(qs[0] == 1 && qs[1] == 2 && qs[2] == 8 && qs[3] == 16);
        }
    }
    lemma_half_moved_sums(x, y, dx, dy, p[1], p[2], p[8], p[16]);
    let h = half_moved(x, y, dx, dy).coeffs;
    assert forall|k: int| 0 <= k < 32 implies gp_lane(t, p, k) == h[k] by {
        lemma_sparse_product(t, p, k, ps, qs);
        reveal_with_fuel(sum_to, 6);
        lemma_pair_terms(t, p);
        lemma_signs();
        reveal(has_gen);
    }
    assert(lattice_translator(dx, dy).gp(lattice_point(x, y)).coeffs =~= h);
}

/// The sums of products that make up the coefficients of the sandwich
/// product, where h1 to h26 are the coefficients of the half-way stage.
proof fn lemma_sandwich_sums(
    x: int,
    y: int,
    dx: int,
    dy: int,
    h1: int,
    h2: int,
    h8: int,
    h11: int,
    h16: int,
    h19: int,
    h25: int,
    h26: int,
)
    by (nonlinear_arith)
    requires
        h1 == 2 * dx + 4 * x,
        h2 == 2 * dy + 4 * y,
        h8 == 2 * dx * x + 2 * dy * y + 2 * x * x + 2 * y * y - 2,
        h11 == 2 * dx * y - 2 * dy * x,
        h16 == 2 * dx * x + 2 * dy * y + 2 * x * x + 2 * y * y + 2,
        h19 == 2 * dx * y - 2 * dy * x,
        h25 == -2 * dx,
        h26 == -2 * dy,
    ensures
        h1 * 2 - h8 * dx - h11 * dy + h16 * dx + h19 * dy == 4 * (2 * (x + dx)),
        h2 * 2 - h8 * dy + h11 * dx + h16 * dy - h19 * dx == 4 * (2 * (y + dy)),
        h1 * dx + h2 * dy + h8 * 2 - h25 * dx - h26 * dy == 4 * ((x + dx) * (x + dx) + (y + dy) * (y
            + dy) - 1),
        h1 * dy - h2 * dx + h11 * 2 - h25 * dy + h26 * dx == 0,
        h1 * dx + h2 * dy + h16 * 2 - h25 * dx - h26 * dy == 4 * ((x + dx) * (x + dx) + (y + dy) * (y
            + dy) + 1),
        h1 * dy - h2 * dx + h19 * 2 - h25 * dy + h26 * dx == 0,
        -(h8 * dx) - h11 * dy + h16 * dx + h19 * dy + h25 * 2 == 0,
        -(h8 * dy) + h11 * dx + h16 * dy - h19 * dx + h26 * 2 == 0,
{
}

/// The half-way stage times the reverse of the translator has four times the
/// numerators of the moved point.
proof fn lemma_half_moved_times_reverse(x: int, y: int, dx: int, dy: int)
    ensures
        forall|k: int|
            0 <= k < 32 ==> #[trigger] half_moved(x, y, dx, dy).gp(
                lattice_translator(-dx, -dy),
            ).coeffs[k] == 4 * lattice_point(x + dx, y + dy).coeffs[k],
{
    let h = half_moved(x, y, dx, dy).coeffs;
    let r = lattice_translator(-dx, -dy).coeffs;
    let ps = seq![1int, 2, 8, 11, 16, 19, 25, 26];
    let qs = seq![0int, 9, 17, 10, 18];
    assert(supported(h, ps)) by {
        assert forall|i: int| 0 <= i < 32 && !ps.contains(i) implies #[trigger] h[i] == 0 by {
            assert(ps[0] == 1 && ps[1] == 2 && ps[2] == 8 && ps[3] == 11 && ps[4] == 16 && ps[5]
                == 19 && ps[6] == 25 && ps[7] == 26);
        }
    }
    assert(supported(r, qs)) by {
        assert forall|i: int| 0 <= i < 32 && !qs.contains(i) implies #[trigger] r[i] == 0 by {
            assert(qs[0] == 0 && qs[1] == 9 && qs[2] == 17 && qs[3] == 10 && qs[4] == 18);
        }
    }
    lemma_sandwich_sums(x, y, dx, dy, h[1], h[2], h[8], h[11], h[16], h[19], h[25], h[26]);
    let q = lattice_point(x + dx, y + dy).coeffs;
    assert forall|k: int| 0 <= k < 32 implies gp_lane(h, r, k) == 4 * q[k] by {
        lemma_sparse_product(h, r, k, ps, qs);
        reveal_with_fuel(sum_to, 9);
        lemma_pair_terms(h, r);
        lemma_signs();
        reveal(has_gen);
    }
}

/// A translator moves points: the sandwich product of the point of (x, y)
/// with the translator of the displacement (dx, dy) is, as a multivector with
/// numbers for coefficients, the point of (x + dx, y + dy).
pub proof fn lemma_translator_moves_points(x: int, y: int, dx: int, dy: int)
    ensures
        Mv::point(Dy::whole(x), Dy::whole(y)).transform(
            Mv::translator(Dy::whole(dx), Dy::whole(dy)),
        ).same_value(Mv::point(Dy::whole(x + dx), Dy::whole(y + dy))),
{
    lemma_lattice_point_value(x, y);
    lemma_lattice_point_value(x + dx, y + dy);
    lemma_lattice_translator(dx, dy);
    lemma_translator_reverse(dx, dy);
    lemma_translator_times_point(x, y, dx, dy);
    lemma_half_moved_times_reverse(x, y, dx, dy);
    lemma2_to64();
    let moved = lattice_point(x, y).transform(lattice_translator(dx, dy));
    let q = lattice_point(x + dx, y + dy);
    assert(moved == half_moved(x, y, dx, dy).gp(lattice_translator(-dx, -dy)));
    let p1 = pow2(1) as int;
    let p3 = pow2(3) as int;
    assert forall|i: int| 0 <= i < 32 implies #[trigger] moved.coeffs[i] * pow2(q.shift)
        == q.coeffs[i] * pow2(moved.shift) by {
        let m = moved.coeffs[i];
        let c = q.coeffs[i];
        assert(m * p1 == c * p3) by (nonlinear_arith)
            requires
                m == 4 * c,
                p1 == 2,
                p3 == 8,
        ;
    }
}

} // verus!
