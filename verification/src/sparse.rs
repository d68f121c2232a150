//! Products of multivectors that vanish outside a few blades: each
//! coefficient of the product is a sum over the pairs of those blades.

use vstd::prelude::*;
use crate::blade::{
    blade_sign, blade_xor, lemma_blade_xor_cancel, lemma_sign_parity, sign_flipped,
};
use crate::model::{gp_lane, gp_term};
use crate::sums::{lemma_sum_ext, lemma_sum_single, lemma_sum_support, lemma_sum_zero, sum_to};

verus! {

/// The term that the blades `i` of `a` and `j` of `b` add to the coefficient
/// of their product on blade `k`: nothing unless their product is blade `k`.
pub open spec fn pair_term(a: Seq<int>, b: Seq<int>, k: int, i: int, j: int) -> int {
    if blade_xor(i, j) == k {
        blade_sign(i, j) * a[i] * b[j]
    } else {
        0
    }
}

/// The term of a pair of blades is the product of the two coefficients, with
/// the sign of the product of the blades.
pub proof fn lemma_pair_term(a: Seq<int>, b: Seq<int>, k: int, i: int, j: int)
    ensures
        pair_term(a, b, k, i, j) == if blade_xor(i, j) != k {
            0
        } else if blade_sign(i, j) == 1 {
            a[i] * b[j]
        } else {
            -(a[i] * b[j])
        },
{
    let s = blade_sign(i, j);
    let x = a[i];
    let y = b[j];
    assert(s == 1 ==> s * x * y == x * y) by (nonlinear_arith);
    assert(s == -1 ==> s * x * y == -(x * y)) by (nonlinear_arith);
}

/// The same for all pairs of blades at once.
pub proof fn lemma_pair_terms(a: Seq<int>, b: Seq<int>)
    ensures
        forall|k: int, i: int, j: int| #[trigger]
            pair_term(a, b, k, i, j) == if blade_xor(i, j) != k {
                0
            } else if blade_sign(i, j) == 1 {
                a[i] * b[j]
            } else {
                -(a[i] * b[j])
            },
{
    assert forall|k: int, i: int, j: int| #[trigger]
        pair_term(a, b, k, i, j) == if blade_xor(i, j) != k {
            0
        } else if blade_sign(i, j) == 1 {
            a[i] * b[j]
        } else {
            -(a[i] * b[j])
        } by {
        lemma_pair_term(a, b, k, i, j);
    }
}

/// The sign of a product of blades as a parity, for all pairs at once.
pub proof fn lemma_signs()
    ensures
        forall|a: int, b: int| #[trigger]
            blade_sign(a, b) == if sign_flipped(a, b) {
                -1int
            } else {
                1int
            },
{
    assert forall|a: int, b: int| #[trigger]
        blade_sign(a, b) == if sign_flipped(a, b) {
            -1int
        } else {
            1int
        } by {
        lemma_sign_parity(a, b);
    }
}

/// The sum over the blades `js` of `b` of the terms that they add together
/// with blade `i` of `a`.
pub open spec fn row_terms(a: Seq<int>, b: Seq<int>, k: int, i: int, js: Seq<int>) -> int {
    sum_to(js.len() as int, |u: int| pair_term(a, b, k, i, js[u]))
}

/// The sum of the terms of all pairs of a blade of `ps` and a blade of `js`.
pub open spec fn pair_terms(a: Seq<int>, b: Seq<int>, k: int, ps: Seq<int>, js: Seq<int>) -> int {
    sum_to(ps.len() as int, |t: int| row_terms(a, b, k, ps[t], js))
}

/// Whether `points` lists different blades and `a` vanishes on every blade
/// that is not listed.
pub open spec fn supported(a: Seq<int>, points: Seq<int>) -> bool {
    &&& a.len() == 32
    &&& forall|t: int| 0 <= t < points.len() ==> 0 <= #[trigger] points[t] < 32
    &&& forall|t: int, u: int| 0 <= t < u < points.len() ==> points[t] != points[u]
    &&& forall|i: int| 0 <= i < 32 && !points.contains(i) ==> #[trigger] a[i] == 0
}

/// A coefficient of the product of two multivectors that vanish outside a few
/// blades is the sum of the terms of the pairs of those blades.
pub proof fn lemma_sparse_product(a: Seq<int>, b: Seq<int>, k: int, ps: Seq<int>, js: Seq<int>)
    requires
        supported(a, ps),
        supported(b, js),
        0 <= k < 32,
    ensures
        gp_lane(a, b, k) == pair_terms(a, b, k, ps, js),
{
    let f = |i: int| gp_term(a, b, k, i);
    assert forall|i: int| 0 <= i < 32 && !ps.contains(i) implies #[trigger] f(i) == 0 by {
        let s = blade_sign(i, blade_xor(i, k));
        let y = b[blade_xor(i, k)];
        assert(a[i] == 0);
        assert(s * 0 * y == 0) by (nonlinear_arith);
    }
    lemma_sum_support(32, f, ps);
    let at = |t: int| f(ps[t]);
    let rows = |t: int| row_terms(a, b, k, ps[t], js);
    assert forall|t: int| 0 <= t < ps.len() implies #[trigger] at(t) == rows(t) by {
        let i = ps[t];
        let j = blade_xor(i, k);
        lemma_blade_xor_cancel(i, k);
        let row = |u: int| pair_term(a, b, k, i, js[u]);
        if js.contains(j) {
            let u0 = choose|u: int| 0 <= u < js.len() && js[u] == j;
            assert forall|u: int| 0 <= u < js.len() && u != u0 implies #[trigger] row(u) == 0 by {
                lemma_blade_xor_cancel(i, js[u]);
                if blade_xor(i, js[u]) == k {
                    assert(js[u] == j);
                }
            }
            lemma_sum_single(js.len() as int, u0, row);
        } else {
            assert forall|u: int| 0 <= u < js.len() implies #[trigger] row(u) == 0 by {
                lemma_blade_xor_cancel(i, js[u]);
                if blade_xor(i, js[u]) == k {
                    assert(js[u] == j);
                    assert(js.contains(j));
                }
            }
            lemma_sum_zero(js.len() as int, row);
            let s = blade_sign(i, j);
            let x = a[i];
            assert(b[j] == 0);
            assert(s * x * 0 == 0) by (nonlinear_arith);
        }
    }
    lemma_sum_ext(ps.len() as int, at, rows);
}

/// The 32 blades in ascending order.
pub open spec fn all_blades() -> Seq<int> {
    Seq::new(32, |i: int| i)
}

/// A coefficient of the geometric product, which is defined as a sum over the
/// 32 pairs of blades whose product is the blade of the coefficient, is also
/// the sum over all 1024 pairs of blades of the terms of those pairs whose
/// product is that blade.
pub proof fn lemma_product_is_double_sum(a: Seq<int>, b: Seq<int>, k: int)
    requires
        a.len() == 32,
        b.len() == 32,
        0 <= k < 32,
    ensures
        gp_lane(a, b, k) == pair_terms(a, b, k, all_blades(), all_blades()),
{
    let all = all_blades();
    assert forall|i: int| 0 <= i < 32 implies all.contains(i) by {
        assert(all[i] == i);
    }
    lemma_sparse_product(a, b, k, all, all);
}

} // verus!
