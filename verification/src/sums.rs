//! Finite sums over an index range, and the rules for rearranging them.

use vstd::prelude::*;

verus! {

/// The sum f(0) + f(1) + ... + f(n - 1).
pub open spec fn sum_to(n: int, f: spec_fn(int) -> int) -> int
    decreases n,
{
    if n <= 0 {
        0
    } else {
        sum_to(n - 1, f) + f(n - 1)
    }
}

/// Sums of functions that agree on the range are equal.
pub proof fn lemma_sum_ext(n: int, f: spec_fn(int) -> int, g: spec_fn(int) -> int)
    requires
        forall|i: int| 0 <= i < n ==> #[trigger] f(i) == g(i),
    ensures
        sum_to(n, f) == sum_to(n, g),
    decreases n,
{
    if n > 0 {
        lemma_sum_ext(n - 1, f, g);
    }
}

/// A sum of zeros is zero.
pub proof fn lemma_sum_zero(n: int, f: spec_fn(int) -> int)
    requires
        forall|i: int| 0 <= i < n ==> #[trigger] f(i) == 0,
    ensures
        sum_to(n, f) == 0,
    decreases n,
{
    if n > 0 {
        lemma_sum_zero(n - 1, f);
    }
}

/// A constant factor moves out of a sum.
pub proof fn lemma_sum_scale(n: int, c: int, f: spec_fn(int) -> int, g: spec_fn(int) -> int)
    requires
        forall|i: int| 0 <= i < n ==> #[trigger] g(i) == c * f(i),
    ensures
        sum_to(n, g) == c * sum_to(n, f),
    decreases n,
{
    if n > 0 {
        lemma_sum_scale(n - 1, c, f, g);
        assert(c * (sum_to(n - 1, f) + f(n - 1)) == c * sum_to(n - 1, f) + c * f(n - 1))
            by (nonlinear_arith);
    } else {
        assert(c * 0 == 0);
    }
}

/// The sum of a sum of two functions is the sum of their sums.
pub proof fn lemma_sum_add(
    n: int,
    f: spec_fn(int) -> int,
    g: spec_fn(int) -> int,
    h: spec_fn(int) -> int,
)
    requires
        forall|i: int| 0 <= i < n ==> #[trigger] h(i) == f(i) + g(i),
    ensures
        sum_to(n, h) == sum_to(n, f) + sum_to(n, g),
    decreases n,
{
    if n > 0 {
        lemma_sum_add(n - 1, f, g, h);
    }
}

/// A sum of `n` terms that are each within `bound` is within `n * bound`.
pub proof fn lemma_sum_bound(n: int, bound: int, f: spec_fn(int) -> int)
    requires
        0 <= n,
        0 <= bound,
        forall|i: int| 0 <= i < n ==> -bound <= #[trigger] f(i) <= bound,
    ensures
        -n * bound <= sum_to(n, f) <= n * bound,
    decreases n,
{
    if n > 0 {
        lemma_sum_bound(n - 1, bound, f);
        assert((n - 1) * bound + bound == n * bound) by (nonlinear_arith);
        assert(-(n - 1) * bound - bound == -n * bound) by (nonlinear_arith);
    } else {
        assert(n * bound == 0) by (nonlinear_arith)
            requires
                n == 0,
        ;
    }
}

/// A sum with one term that is not zero is that term.
pub proof fn lemma_sum_single(n: int, p: int, f: spec_fn(int) -> int)
    requires
        0 <= p < n,
        forall|i: int| 0 <= i < n && i != p ==> #[trigger] f(i) == 0,
    ensures
        sum_to(n, f) == f(p),
    decreases n,
{
    if n - 1 == p {
        lemma_sum_zero(n - 1, f);
    } else {
        lemma_sum_single(n - 1, p, f);
    }
}

/// A sum whose terms vanish outside the distinct places `points` is the sum of
/// its terms at those places.
pub proof fn lemma_sum_support(n: int, f: spec_fn(int) -> int, points: Seq<int>)
    requires
        forall|t: int| 0 <= t < points.len() ==> 0 <= #[trigger] points[t] < n,
        forall|t: int, u: int| 0 <= t < u < points.len() ==> points[t] != points[u],
        forall|i: int| 0 <= i < n && !points.contains(i) ==> #[trigger] f(i) == 0,
    ensures
        sum_to(n, f) == sum_to(points.len() as int, |t: int| f(points[t])),
    decreases points.len(),
{
    let at = |t: int| f(points[t]);
    if points.len() == 0 {
        assert forall|i: int| 0 <= i < n implies #[trigger] f(i) == 0 by {
            assert(!points.contains(i));
        }
        lemma_sum_zero(n, f);
    } else {
        let last = points.last();
        let front = points.drop_last();
        let rest = |i: int| if i == last { 0int } else { f(i) };
        let only = |i: int| if i == last { f(i) } else { 0int };
        assert forall|i: int| 0 <= i < n && !front.contains(i) implies #[trigger] rest(i) == 0 by {
            if i != last {
                if points.contains(i) {
                    let t = choose|t: int| 0 <= t < points.len() && points[t] == i;
                    assert(front[t] == i);
                }
            }
        }
        lemma_sum_support(n, rest, front);
        lemma_sum_single(n, last, only);
        lemma_sum_add(n, rest, only, f);
        let at_front = |t: int| rest(front[t]);
        assert forall|t: int| 0 <= t < front.len() implies #[trigger] at_front(t) == at(t) by {
            assert(front[t] == points[t]);
            assert(points[t] != points[points.len() - 1]);
        }
        lemma_sum_ext(front.len() as int, at_front, at);
    }
}

/// The order of two nested sums can be exchanged.
pub proof fn lemma_sum_swap(n: int, m: int, f: spec_fn(int, int) -> int)
    ensures
        sum_to(n, |i: int| sum_to(m, |j: int| f(i, j))) == sum_to(
            m,
            |j: int| sum_to(n, |i: int| f(i, j)),
        ),
    decreases n,
{
    let rows = |i: int| sum_to(m, |j: int| f(i, j));
    let cols = |j: int| sum_to(n, |i: int| f(i, j));
    if n <= 0 {
        assert forall|j: int| 0 <= j < m implies #[trigger] cols(j) == 0 by {}
        lemma_sum_zero(m, cols);
    } else {
        lemma_sum_swap(n - 1, m, f);
        let cols_less = |j: int| sum_to(n - 1, |i: int| f(i, j));
        let last = |j: int| f(n - 1, j);
        assert forall|j: int| 0 <= j < m implies #[trigger] cols(j) == cols_less(j) + last(j) by {}
        lemma_sum_add(m, cols_less, last, cols);
        assert(rows(n - 1) == sum_to(m, last)) by {
            lemma_sum_ext(m, |j: int| f(n - 1, j), last);
        }
    }
}

/// A sum keeps its value when its terms are taken in the order that a
/// self-inverse rearrangement of the range gives.
pub proof fn lemma_sum_reindex(n: int, g: spec_fn(int) -> int, f: spec_fn(int) -> int)
    requires
        forall|i: int| 0 <= i < n ==> 0 <= #[trigger] g(i) < n && g(g(i)) == i,
    ensures
        sum_to(n, |i: int| f(g(i))) == sum_to(n, f),
{
    let pick = |i: int, j: int| if j == g(i) { f(j) } else { 0int };
    let lhs = |i: int| f(g(i));
    let by_rows = |i: int| sum_to(n, |j: int| pick(i, j));
    let by_cols = |j: int| sum_to(n, |i: int| pick(i, j));
    assert forall|i: int| 0 <= i < n implies #[trigger] by_rows(i) == lhs(i) by {
        lemma_sum_single(n, g(i), |j: int| pick(i, j));
    }
    lemma_sum_ext(n, by_rows, lhs);
    assert forall|j: int| 0 <= j < n implies #[trigger] by_cols(j) == f(j) by {
        assert(g(g(j)) == j);
        let col = |i: int| pick(i, j);
        assert forall|i: int| 0 <= i < n && i != g(j) implies #[trigger] col(i) == 0 by {
            if j == g(i) {
                assert(g(g(i)) == i);
            }
        }
        lemma_sum_single(n, g(j), col);
    }
    lemma_sum_ext(n, by_cols, f);
    lemma_sum_swap(n, n, pick);
}

} // verus!
