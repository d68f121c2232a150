//! The laws of the products: the geometric product is associative, reversion
//! is an involution that turns products around, the inner product is
//! symmetric, and the outer product of vectors is antisymmetric.

use vstd::prelude::*;
use crate::blade::{
    blade_grade, blade_sign, blade_xor, has_gen, lemma_blade_sign_assoc, lemma_blade_xor,
    lemma_blade_xor_cancel, lemma_low_grades, lemma_mask_of_gens, lemma_reverse_sign_product,
    lemma_same_gens, lemma_sign_parity, reverse_sign, sign_flipped,
};
use crate::dyadic::Dy;
use crate::model::{gp_lane, gp_term, grades_add, wedge_lane, wedge_term, Mv};
use crate::sparse::{lemma_pair_terms, lemma_signs, lemma_sparse_product, supported};
use crate::sums::{
    lemma_sum_ext, lemma_sum_reindex, lemma_sum_scale, lemma_sum_swap, lemma_sum_zero, sum_to,
};

verus! {

/// Reversion is an involution.
pub proof fn lemma_reverse_involution(a: Mv)
    requires
        a.valid(),
    ensures
        a.reverse().reverse() == a,
{
    assert forall|k: int| 0 <= k < 32 implies a.reverse().reverse().coeffs[k] == a.coeffs[k] by {
        let r = reverse_sign(k);
        let x = a.coeffs[k];
        assert(r * (r * x) == x) by (nonlinear_arith)
            requires
                r == 1 || r == -1,
        ;
    }
    assert(a.reverse().reverse().coeffs =~= a.coeffs);
}

/// Reversion is an anti-automorphism of the geometric product: the reverse of
/// a product is the product of the reverses in the opposite order.
pub proof fn lemma_reverse_product(a: Mv, b: Mv)
    requires
        a.valid(),
        b.valid(),
    ensures
        a.gp(b).reverse() == b.reverse().gp(a.reverse()),
{
    let ra = a.reverse();
    let rb = b.reverse();
    assert forall|k: int| 0 <= k < 32 implies a.gp(b).reverse().coeffs[k] == rb.gp(ra).coeffs[k] by {
        let left = |i: int| gp_term(a.coeffs, b.coeffs, k, i);
        let scaled = |i: int| reverse_sign(k) * left(i);
        let right = |j: int| gp_term(rb.coeffs, ra.coeffs, k, j);
        let turn = |i: int| blade_xor(i, k);
        lemma_sum_scale(32, reverse_sign(k), left, scaled);
        assert forall|i: int| 0 <= i < 32 implies 0 <= #[trigger] turn(i) < 32 && turn(turn(i))
            == i by {
            lemma_blade_xor_cancel(k, i);
            lemma_blade_xor_cancel(k, blade_xor(k, i));
            lemma_blade_xor_cancel(i, k);
        }
        lemma_sum_reindex(32, turn, right);
        let turned = |i: int| right(turn(i));
        assert forall|i: int| 0 <= i < 32 implies #[trigger] scaled(i) == turned(i) by {
            let j = blade_xor(i, k);
            lemma_blade_xor_cancel(i, k);
            lemma_blade_xor_cancel(k, i);
            lemma_blade_xor_cancel(j, k);
            lemma_blade_xor_cancel(k, j);
            assert(blade_xor(j, k) == i);
            lemma_reverse_sign_product(i, j);
            let rk = reverse_sign(k);
            let ri = reverse_sign(i);
            let rj = reverse_sign(j);
            let sij = blade_sign(i, j);
            let sji = blade_sign(j, i);
            let x = a.coeffs[i];
            let y = b.coeffs[j];
            assert(rb.coeffs[j] == rj * y);
            assert(ra.coeffs[i] == ri * x);
            let xy = x * y;
            assert(rk * (sij * x * y) == (rk * sij) * xy) by (nonlinear_arith)
                requires
                    xy == x * y,
            ;
            assert(sji * (rj * y) * (ri * x) == (sji * ri * rj) * xy) by (nonlinear_arith)
                requires
                    xy == x * y,
            ;
        }
        lemma_sum_ext(32, scaled, turned);
    }
    assert(a.gp(b).reverse().coeffs =~= rb.gp(ra).coeffs);
}

/// The term of the triple product on blade `m` that comes from blade `i` of
/// `a`, blade `j` of `b` and the blade of `c` that completes them to `m`.
pub open spec fn triple_term(a: Seq<int>, b: Seq<int>, c: Seq<int>, m: int, i: int, j: int) -> int {
    let l = blade_xor(blade_xor(i, j), m);
    blade_sign(i, j) * blade_sign(blade_xor(i, j), l) * a[i] * b[j] * c[l]
}

/// One coefficient of (a b) c, written as a double sum over the blades of `a`
/// and `b`.
proof fn lemma_left_bracket(a: Mv, b: Mv, c: Mv, m: int)
    requires
        a.valid(),
        b.valid(),
        c.valid(),
        0 <= m < 32,
    ensures
        a.gp(b).gp(c).coeffs[m] == sum_to(
            32,
            |i: int| sum_to(32, |j: int| triple_term(a.coeffs, b.coeffs, c.coeffs, m, i, j)),
        ),
{
    let ab = a.gp(b);
    let by_k = |k: int, i: int|
        blade_sign(k, blade_xor(k, m)) * gp_term(a.coeffs, b.coeffs, k, i) * c.coeffs[blade_xor(
            k,
            m,
        )];
    let outer = |k: int| gp_term(ab.coeffs, c.coeffs, m, k);
    let rows = |k: int| sum_to(32, |i: int| by_k(k, i));
    assert forall|k: int| 0 <= k < 32 implies #[trigger] outer(k) == rows(k) by {
        let inner = |i: int| gp_term(a.coeffs, b.coeffs, k, i);
        let row = |i: int| by_k(k, i);
        let s = blade_sign(k, blade_xor(k, m));
        let z = c.coeffs[blade_xor(k, m)];
        assert forall|i: int| 0 <= i < 32 implies #[trigger] row(i) == (s * z) * inner(i) by {
            let t = inner(i);
            assert(s * t * z == (s * z) * t) by (nonlinear_arith);
        }
        lemma_sum_scale(32, s * z, inner, row);
        let total = sum_to(32, inner);
        assert(s * total * z == (s * z) * total) by (nonlinear_arith);
        assert(ab.coeffs[k] == total);
    }
    lemma_sum_ext(32, outer, rows);
    lemma_sum_swap(32, 32, by_k);
    let cols = |i: int| sum_to(32, |k: int| by_k(k, i));
    let target = |i: int| sum_to(32, |j: int| triple_term(a.coeffs, b.coeffs, c.coeffs, m, i, j));
    assert forall|i: int| 0 <= i < 32 implies #[trigger] cols(i) == target(i) by {
        let col = |k: int| by_k(k, i);
        let turn = |j: int| blade_xor(i, j);
        assert forall|j: int| 0 <= j < 32 implies 0 <= #[trigger] turn(j) < 32 && turn(turn(j))
            == j by {
            lemma_blade_xor_cancel(i, j);
        }
        lemma_sum_reindex(32, turn, col);
        let turned = |j: int| col(turn(j));
        let want = |j: int| triple_term(a.coeffs, b.coeffs, c.coeffs, m, i, j);
        assert forall|j: int| 0 <= j < 32 implies #[trigger] turned(j) == want(j) by {
            let k = blade_xor(i, j);
            lemma_blade_xor_cancel(i, j);
            lemma_blade_xor_cancel(i, k);
            assert(blade_xor(i, k) == j);
            let l = blade_xor(k, m);
            let s1 = blade_sign(k, l);
            let s2 = blade_sign(i, j);
            let x = a.coeffs[i];
            let y = b.coeffs[j];
            let z = c.coeffs[l];
            let xy = x * y;
            assert(s1 * (s2 * x * y) * z == (s1 * s2) * (xy * z)) by (nonlinear_arith)
                requires
                    xy == x * y,
            ;
            assert(s2 * s1 * x * y * z == (s1 * s2) * (xy * z)) by (nonlinear_arith)
                requires
                    xy == x * y,
            ;
        }
        lemma_sum_ext(32, turned, want);
    }
    lemma_sum_ext(32, cols, target);
}

/// One coefficient of a (b c), written as the same double sum.
proof fn lemma_right_bracket(a: Mv, b: Mv, c: Mv, m: int)
    requires
        a.valid(),
        b.valid(),
        c.valid(),
        0 <= m < 32,
    ensures
        a.gp(b.gp(c)).coeffs[m] == sum_to(
            32,
            |i: int| sum_to(32, |j: int| triple_term(a.coeffs, b.coeffs, c.coeffs, m, i, j)),
        ),
{
    let bc = b.gp(c);
    let outer = |i: int| gp_term(a.coeffs, bc.coeffs, m, i);
    let target = |i: int| sum_to(32, |j: int| triple_term(a.coeffs, b.coeffs, c.coeffs, m, i, j));
    assert forall|i: int| 0 <= i < 32 implies #[trigger] outer(i) == target(i) by {
        let n = blade_xor(i, m);
        lemma_blade_xor_cancel(i, m);
        let inner = |j: int| gp_term(b.coeffs, c.coeffs, n, j);
        let want = |j: int| triple_term(a.coeffs, b.coeffs, c.coeffs, m, i, j);
        let s = blade_sign(i, n);
        let x = a.coeffs[i];
        assert forall|j: int| 0 <= j < 32 implies #[trigger] want(j) == (s * x) * inner(j) by {
            let l = blade_xor(j, n);
            lemma_blade_xor_cancel(j, n);
            lemma_blade_sign_assoc(i, j, l);
            lemma_blade_xor_cancel(i, j);
            lemma_blade_xor_cancel(j, l);
            assert(blade_xor(j, l) == n);
            // i xor j xor l == i xor n == m, hence (i xor j) xor m == l
            assert(blade_xor(blade_xor(i, j), l) == blade_xor(i, n));
            lemma_blade_xor_cancel(blade_xor(i, j), l);
            assert(blade_xor(i, n) == m);
            assert(blade_xor(blade_xor(i, j), m) == l);
            let s1 = blade_sign(i, j);
            let s2 = blade_sign(blade_xor(i, j), l);
            let s3 = blade_sign(j, l);
            let y = b.coeffs[j];
            let z = c.coeffs[l];
            let xyz = x * y * z;
            assert(s1 * s2 * x * y * z == (s1 * s2) * xyz) by (nonlinear_arith)
                requires
                    xyz == x * y * z,
            ;
            assert((s * x) * (s3 * y * z) == (s3 * s) * xyz) by (nonlinear_arith)
                requires
                    xyz == x * y * z,
            ;
        }
        lemma_sum_scale(32, s * x, inner, want);
        assert(bc.coeffs[n] == sum_to(32, inner));
        let total = sum_to(32, inner);
        assert(s * x * total == (s * x) * total) by (nonlinear_arith);
    }
    lemma_sum_ext(32, outer, target);
}

/// The geometric product is associative.
pub proof fn lemma_gp_associative(a: Mv, b: Mv, c: Mv)
    requires
        a.valid(),
        b.valid(),
        c.valid(),
    ensures
        a.gp(b).gp(c) == a.gp(b.gp(c)),
{
    assert forall|m: int| 0 <= m < 32 implies a.gp(b).gp(c).coeffs[m] == a.gp(b.gp(c)).coeffs[m] by {
        lemma_left_bracket(a, b, c, m);
        lemma_right_bracket(a, b, c, m);
    }
    assert(a.gp(b).gp(c).coeffs =~= a.gp(b.gp(c)).coeffs);
}

/// Whether the multivector is a vector: all its coefficients are on blades of
/// grade 1.
pub open spec fn is_vector(a: Mv) -> bool {
    forall|i: int| 0 <= i < 32 && blade_grade(i) != 1 ==> #[trigger] a.coeffs[i] == 0
}

/// The restricted inner product is symmetric.
pub proof fn lemma_inner_symmetric(a: Mv, b: Mv)
    ensures
        a.inner(b) == b.inner(a),
{
    let a0 = a.coeffs[0];
    let a1 = a.coeffs[1];
    let a2 = a.coeffs[2];
    let a4 = a.coeffs[4];
    let a8 = a.coeffs[8];
    let a16 = a.coeffs[16];
    let b0 = b.coeffs[0];
    let b1 = b.coeffs[1];
    let b2 = b.coeffs[2];
    let b4 = b.coeffs[4];
    let b8 = b.coeffs[8];
    let b16 = b.coeffs[16];
    assert(a0 * b0 == b0 * a0 && a1 * b1 == b1 * a1 && a2 * b2 == b2 * a2 && a4 * b4 == b4 * a4
        && a8 * b8 == b8 * a8 && a16 * b16 == b16 * a16) by (nonlinear_arith);
}

/// Two different generators anticommute.
pub proof fn lemma_generators_anticommute(i: int, j: int)
    requires
        0 <= i < 32,
        0 <= j < 32,
        blade_grade(i) == 1,
        blade_grade(j) == 1,
        i != j,
    ensures
        blade_sign(i, j) == -blade_sign(j, i),
        blade_grade(blade_xor(i, j)) == 2,
{
    lemma_sign_parity(i, j);
    lemma_sign_parity(j, i);
    lemma_blade_xor(i, j);
    if forall|g: int| 0 <= g < 5 ==> has_gen(i, g) == has_gen(j, g) {
        lemma_same_gens(i, j);
    }
    assert(sign_flipped(i, j) != sign_flipped(j, i));
}

/// A generator times itself is a scalar.
pub proof fn lemma_generator_square(i: int)
    requires
        0 <= i < 32,
    ensures
        blade_xor(i, i) == 0,
        blade_grade(blade_xor(i, i)) == 0,
{
    lemma_blade_xor_cancel(i, i);
    lemma_low_grades();
}

/// The outer product of vectors is antisymmetric: exchanging the factors
/// changes the sign of every coefficient. So the outer product of a vector
/// with itself is zero.
pub proof fn lemma_wedge_antisymmetric(a: Mv, b: Mv)
    requires
        a.valid(),
        b.valid(),
        is_vector(a),
        is_vector(b),
    ensures
        forall|k: int| 0 <= k < 32 ==> #[trigger] a.wedge(b).coeffs[k] == -b.wedge(a).coeffs[k],
        forall|k: int| 0 <= k < 32 ==> #[trigger] a.wedge(a).coeffs[k] == 0,
{
    assert forall|k: int| 0 <= k < 32 implies #[trigger] a.wedge(b).coeffs[k] == -b.wedge(
        a,
    ).coeffs[k] by {
        lemma_wedge_lane_antisymmetric(a.coeffs, b.coeffs, k);
    }
    assert forall|k: int| 0 <= k < 32 implies #[trigger] a.wedge(a).coeffs[k] == 0 by {
        lemma_wedge_lane_antisymmetric(a.coeffs, a.coeffs, k);
    }
}

/// The outer product of a vector with a multiple of itself is zero: linearly
/// dependent vectors span no area.
pub proof fn lemma_wedge_dependent(a: Mv, c: Dy)
    requires
        a.valid(),
        is_vector(a),
    ensures
        forall|k: int| 0 <= k < 32 ==> #[trigger] a.wedge(a.scaled(c)).coeffs[k] == 0,
        forall|k: int| 0 <= k < 32 ==> #[trigger] a.scaled(c).wedge(a).coeffs[k] == 0,
{
    let b = a.scaled(c);
    lemma_wedge_antisymmetric(a, a);
    assert forall|k: int| 0 <= k < 32 implies #[trigger] a.wedge(b).coeffs[k] == 0 by {
        let plain = |i: int| wedge_term(a.coeffs, a.coeffs, k, i);
        let scaled = |i: int| wedge_term(a.coeffs, b.coeffs, k, i);
        assert forall|i: int| 0 <= i < 32 implies #[trigger] scaled(i) == c.m * plain(i) by {
            lemma_blade_xor_cancel(i, k);
            let j = blade_xor(i, k);
            let s = blade_sign(i, j);
            let x = a.coeffs[i];
            let y = a.coeffs[j];
            assert(b.coeffs[j] == y * c.m);
            assert(s * x * (y * c.m) == c.m * (s * x * y) && c.m * 0 == 0) by (nonlinear_arith);
        }
        lemma_sum_scale(32, c.m, plain, scaled);
        assert(a.wedge(a).coeffs[k] == 0);
        assert(wedge_lane(a.coeffs, a.coeffs, k) == 0);
        assert(c.m * 0 == 0);
    }
    assert(is_vector(b)) by {
        assert forall|i: int| 0 <= i < 32 && blade_grade(i) != 1 implies #[trigger] b.coeffs[i]
            == 0 by {
            assert(a.coeffs[i] == 0);
            assert(0 * c.m == 0);
        }
    }
    lemma_wedge_antisymmetric(b, a);
}

/// The geometric product of two vectors is the sum of their inner product
/// and their outer product: its scalar part is the restricted inner product,
/// and all its other coefficients are those of the outer product, which has
/// no scalar part.
pub proof fn lemma_vector_product(a: Mv, b: Mv)
    requires
        a.valid(),
        b.valid(),
        is_vector(a),
        is_vector(b),
    ensures
        a.gp(b).coeffs[0] == a.inner(b).m,
        a.wedge(b).coeffs[0] == 0,
        forall|k: int| 1 <= k < 32 ==> #[trigger] a.gp(b).coeffs[k] == a.wedge(b).coeffs[k],
{
    lemma_low_grades();
    let vs = seq![1int, 2, 4, 8, 16];
    assert forall|i: int| 0 <= i < 32 && !vs.contains(i) implies blade_grade(i) != 1 by {
        assert(vs[0] == 1 && vs[1] == 2 && vs[2] == 4 && vs[3] == 8 && vs[4] == 16);
        lemma_mask_of_gens(i);
    }
    assert(supported(a.coeffs, vs));
    assert(supported(b.coeffs, vs));
    assert(gp_lane(a.coeffs, b.coeffs, 0) == a.coeffs[1] * b.coeffs[1] + a.coeffs[2] * b.coeffs[2]
        + a.coeffs[4] * b.coeffs[4] + a.coeffs[8] * b.coeffs[8] - a.coeffs[16] * b.coeffs[16]) by {
        lemma_sparse_product(a.coeffs, b.coeffs, 0, vs, vs);
        reveal_with_fuel(sum_to, 6);
        lemma_pair_terms(a.coeffs, b.coeffs);
        lemma_signs();
        reveal(has_gen);
    }
    assert(a.coeffs[0] == 0);
    let b0 = b.coeffs[0];
    assert(0 * b0 == 0);
    assert forall|k: int| 0 <= k < 32 implies (k != 0 ==> #[trigger] a.gp(b).coeffs[k] == a.wedge(
        b,
    ).coeffs[k]) && (k == 0 ==> a.wedge(b).coeffs[k] == 0) by {
        let whole = |i: int| gp_term(a.coeffs, b.coeffs, k, i);
        let outer = |i: int| wedge_term(a.coeffs, b.coeffs, k, i);
        let none = |i: int| 0int;
        assert forall|i: int| 0 <= i < 32 implies (k != 0 ==> #[trigger] whole(i) == outer(i))
            && (k == 0 ==> outer(i) == none(i)) by {
            lemma_blade_xor_cancel(i, k);
            let j = blade_xor(i, k);
            let s = blade_sign(i, j);
            let x = a.coeffs[i];
            let y = b.coeffs[j];
            if blade_grade(i) != 1 {
                assert(s * 0 * y == 0) by (nonlinear_arith);
            } else if blade_grade(j) != 1 {
                assert(s * x * 0 == 0) by (nonlinear_arith);
            } else if i != j {
                lemma_generators_anticommute(i, j);
                lemma_blade_xor_cancel(i, j);
            } else {
                lemma_generator_square(i);
            }
        }
        if k != 0 {
            lemma_sum_ext(32, whole, outer);
        } else {
            lemma_sum_ext(32, outer, none);
            lemma_sum_zero(32, none);
        }
    }
}

/// One coefficient of the outer product of two vectors changes sign when the
/// factors are exchanged.
proof fn lemma_wedge_lane_antisymmetric(a: Seq<int>, b: Seq<int>, k: int)
    requires
        a.len() == 32,
        b.len() == 32,
        0 <= k < 32,
        forall|i: int| 0 <= i < 32 && blade_grade(i) != 1 ==> #[trigger] a[i] == 0,
        forall|i: int| 0 <= i < 32 && blade_grade(i) != 1 ==> #[trigger] b[i] == 0,
    ensures
        wedge_lane(a, b, k) == -wedge_lane(b, a, k),
{
    let left = |i: int| wedge_term(a, b, k, i);
    let right = |j: int| wedge_term(b, a, k, j);
    let turn = |i: int| blade_xor(i, k);
    assert forall|i: int| 0 <= i < 32 implies 0 <= #[trigger] turn(i) < 32 && turn(turn(i))
        == i by {
        lemma_blade_xor_cancel(k, i);
        lemma_blade_xor_cancel(k, blade_xor(k, i));
        lemma_blade_xor_cancel(i, k);
    }
    lemma_sum_reindex(32, turn, right);
    let turned = |i: int| right(turn(i));
    let negated = |i: int| (-1) * turned(i);
    assert forall|i: int| 0 <= i < 32 implies #[trigger] left(i) == negated(i) by {
        let j = blade_xor(i, k);
        lemma_blade_xor_cancel(i, k);
        lemma_blade_xor_cancel(k, i);
        lemma_blade_xor_cancel(j, k);
        lemma_blade_xor_cancel(k, j);
        assert(blade_xor(j, k) == i);
        let x = a[i];
        let y = b[j];
        let sij = blade_sign(i, j);
        let sji = blade_sign(j, i);
        if blade_grade(i) == 1 && blade_grade(j) == 1 {
            if i == j {
                lemma_generator_square(i);
                assert(k == 0);
                lemma_low_grades();
                assert(!grades_add(k, i));
                assert(!grades_add(k, j));
            } else {
                lemma_generators_anticommute(i, j);
                assert(grades_add(k, i) == grades_add(k, j));
                assert(sij * x * y == (-1) * (sji * y * x)) by (nonlinear_arith)
                    requires
                        sij == -sji,
                ;
            }
        } else if blade_grade(i) != 1 {
            assert(x == 0);
            assert(sij * 0 * y == 0 && (-1) * (sji * y * 0) == 0) by (nonlinear_arith);
        } else {
            assert(y == 0);
            assert(sij * x * 0 == 0 && (-1) * (sji * 0 * x) == 0) by (nonlinear_arith);
        }
    }
    lemma_sum_ext(32, left, negated);
    lemma_sum_scale(32, -1, turned, negated);
}

} // verus!
