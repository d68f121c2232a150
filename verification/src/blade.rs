//! Basis blades of the five-generator algebra and the rule for multiplying two of them.
//!
//! A basis blade is a subset of the generators e1, e2, e3, e+, e-, written as a
//! five-bit mask: generator number `i` (0 for e1, 4 for e-) is bit `i`. The first
//! four generators square to +1, the last one to -1.

use vstd::prelude::*;

verus! {

/// Whether generator `i` occurs in the blade with mask `b`.
#[verifier::opaque]
pub open spec fn has_gen(b: int, i: int) -> bool {
    if i == 0 {
        b % 2 == 1
    } else if i == 1 {
        (b / 2) % 2 == 1
    } else if i == 2 {
        (b / 4) % 2 == 1
    } else if i == 3 {
        (b / 8) % 2 == 1
    } else {
        (b / 16) % 2 == 1
    }
}

/// 1 where `p` holds, else 0.
pub open spec fn count_if(p: bool) -> int {
    if p {
        1
    } else {
        0
    }
}

/// The grade of a blade: how many generators it holds.
pub open spec fn blade_grade(b: int) -> int {
    count_if(has_gen(b, 0)) + count_if(has_gen(b, 1)) + count_if(has_gen(b, 2)) + count_if(
        has_gen(b, 3),
    ) + count_if(has_gen(b, 4))
}

/// How many generators of `a` have a number strictly between `i` and `hi`.
pub open spec fn gens_above(a: int, i: int, hi: int) -> int
    decreases hi - i,
{
    if hi <= i + 1 {
        0
    } else {
        gens_above(a, i, hi - 1) + count_if(has_gen(a, hi - 1))
    }
}

/// How many transpositions of neighbouring generators bring the generators of `b`
/// numbered below `n` to their places among those of `a`: each one moves past
/// every generator of `a` with a higher number.
pub open spec fn transpositions(a: int, b: int, n: int) -> int
    decreases n,
{
    if n <= 0 {
        0
    } else {
        transpositions(a, b, n - 1) + if has_gen(b, n - 1) {
            gens_above(a, n - 1, 5)
        } else {
            0
        }
    }
}

/// The sign of the product of the blades `a` and `b`: one factor -1 for each
/// transposition, and one more where e- meets itself.
pub open spec fn blade_sign(a: int, b: int) -> int {
    let flips = transpositions(a, b, 5) + count_if(has_gen(a, 4) && has_gen(b, 4));
    if flips % 2 == 0 {
        1
    } else {
        -1
    }
}

/// The blade of the product of `a` and `b`: the generators that occur in exactly
/// one of the two.
pub open spec fn blade_xor(a: int, b: int) -> int {
    count_if(has_gen(a, 0) != has_gen(b, 0)) + 2 * count_if(has_gen(a, 1) != has_gen(b, 1)) + 4
        * count_if(has_gen(a, 2) != has_gen(b, 2)) + 8 * count_if(has_gen(a, 3) != has_gen(b, 3))
        + 16 * count_if(has_gen(a, 4) != has_gen(b, 4))
}

/// A mask below 32 is the sum of the masks of its generators.
pub proof fn lemma_mask_of_gens(b: int)
    requires
        0 <= b < 32,
    ensures
        b == count_if(has_gen(b, 0)) + 2 * count_if(has_gen(b, 1)) + 4 * count_if(has_gen(b, 2))
            + 8 * count_if(has_gen(b, 3)) + 16 * count_if(has_gen(b, 4)),
{
    reveal(has_gen);
}

/// The product blade is a blade, and holds a generator exactly when one of the
/// factors does and the other does not.
pub proof fn lemma_blade_xor(a: int, b: int)
    requires
        0 <= a < 32,
        0 <= b < 32,
    ensures
        0 <= blade_xor(a, b) < 32,
        forall|i: int|
            0 <= i < 5 ==> has_gen(blade_xor(a, b), i) == (has_gen(a, i) != has_gen(b, i)),
{
    reveal(has_gen);
    let x = blade_xor(a, b);
    assert(has_gen(x, 0) == (has_gen(a, 0) != has_gen(b, 0)));
    assert(has_gen(x, 1) == (has_gen(a, 1) != has_gen(b, 1)));
    assert(has_gen(x, 2) == (has_gen(a, 2) != has_gen(b, 2)));
    assert(has_gen(x, 3) == (has_gen(a, 3) != has_gen(b, 3)));
    assert(has_gen(x, 4) == (has_gen(a, 4) != has_gen(b, 4)));
}

/// Whether the product of the blades `a` and `b` carries the sign -1, as a
/// parity over the pairs of generators that change places and the square of e-.
pub open spec fn sign_flipped(a: int, b: int) -> bool {
    let a1 = has_gen(a, 1);
    let a2 = has_gen(a, 2);
    let a3 = has_gen(a, 3);
    let a4 = has_gen(a, 4);
    let b0 = has_gen(b, 0);
    let b1 = has_gen(b, 1);
    let b2 = has_gen(b, 2);
    let b3 = has_gen(b, 3);
    let b4 = has_gen(b, 4);
    (b0 && a1) ^ (b0 && a2) ^ (b0 && a3) ^ (b0 && a4) ^ (b1 && a2) ^ (b1 && a3) ^ (b1 && a4) ^ (b2
        && a3) ^ (b2 && a4) ^ (b3 && a4) ^ (a4 && b4)
}

/// The sign of a product is -1 exactly when an odd number of sign changes meet.
pub proof fn lemma_sign_parity(a: int, b: int)
    ensures
        blade_sign(a, b) == if sign_flipped(a, b) { -1int } else { 1int },
{
    reveal_with_fuel(transpositions, 6);
    reveal_with_fuel(gens_above, 6);
}

/// The sign of a product of blades is +1 or -1.
pub proof fn lemma_sign_is_unit(a: int, b: int)
    ensures
        blade_sign(a, b) == 1 || blade_sign(a, b) == -1,
{
}

/// The product of basis blades is associative: both ways of bracketing three
/// blades give the same sign.
pub proof fn lemma_blade_sign_assoc(a: int, b: int, c: int)
    requires
        0 <= a < 32,
        0 <= b < 32,
        0 <= c < 32,
    ensures
        blade_sign(a, b) * blade_sign(blade_xor(a, b), c) == blade_sign(b, c) * blade_sign(
            a,
            blade_xor(b, c),
        ),
        blade_xor(blade_xor(a, b), c) == blade_xor(a, blade_xor(b, c)),
{
    lemma_blade_xor(a, b);
    lemma_blade_xor(b, c);
    lemma_sign_parity(a, b);
    lemma_sign_parity(blade_xor(a, b), c);
    lemma_sign_parity(b, c);
    lemma_sign_parity(a, blade_xor(b, c));
}

/// The sign that reversion gives a blade: reversing the order of `k` generators
/// takes k(k-1)/2 transpositions.
pub open spec fn reverse_sign(b: int) -> int {
    let k = blade_grade(b);
    if (k * (k - 1) / 2) % 2 == 1 {
        -1
    } else {
        1
    }
}

/// Whether reversion negates the blade `b`, as a parity over its pairs of
/// generators.
pub open spec fn reverse_flipped(b: int) -> bool {
    let b0 = has_gen(b, 0);
    let b1 = has_gen(b, 1);
    let b2 = has_gen(b, 2);
    let b3 = has_gen(b, 3);
    let b4 = has_gen(b, 4);
    (b0 && b1) ^ (b0 && b2) ^ (b0 && b3) ^ (b0 && b4) ^ (b1 && b2) ^ (b1 && b3) ^ (b1 && b4) ^ (b2
        && b3) ^ (b2 && b4) ^ (b3 && b4)
}

/// Reversion negates exactly the blades of grade 2 and 3, those with an odd
/// number of pairs of generators.
pub proof fn lemma_reverse_parity(b: int)
    ensures
        reverse_sign(b) == if reverse_flipped(b) { -1int } else { 1int },
        reverse_sign(b) == if blade_grade(b) == 2 || blade_grade(b) == 3 { -1int } else { 1int },
{
    let k = blade_grade(b);
    if k == 0 {
        assert(k * (k - 1) == 0);
    } else if k == 1 {
        assert(k * (k - 1) == 0);
    } else if k == 2 {
        assert(k * (k - 1) == 2);
    } else if k == 3 {
        assert(k * (k - 1) == 6);
    } else if k == 4 {
        assert(k * (k - 1) == 12);
    } else {
        assert(k == 5);
        assert(k * (k - 1) == 20);
    }
}

/// Reversion turns a product of basis blades around.
pub proof fn lemma_reverse_sign_product(a: int, b: int)
    requires
        0 <= a < 32,
        0 <= b < 32,
    ensures
        reverse_sign(blade_xor(a, b)) * blade_sign(a, b) == blade_sign(b, a) * reverse_sign(a)
            * reverse_sign(b),
{
    lemma_blade_xor(a, b);
    lemma_sign_parity(a, b);
    lemma_sign_parity(b, a);
    lemma_reverse_parity(a);
    lemma_reverse_parity(b);
    lemma_reverse_parity(blade_xor(a, b));
    let x = blade_xor(a, b);
    assert(reverse_flipped(x) ^ sign_flipped(a, b) == sign_flipped(b, a) ^ reverse_flipped(a)
        ^ reverse_flipped(b));
}

/// Bit `i` of a mask, read by shifting, is the generator `i`.
pub proof fn lemma_bit_is_gen(b: usize, i: usize)
    requires
        b < 32,
        i < 5,
    ensures
        ((b >> i) & 1 == 1) == has_gen(b as int, i as int),
{
    reveal(has_gen);
    assert(((b >> 0usize) & 1 == 1) == (b % 2 == 1)) by (bit_vector);
    assert(((b >> 1usize) & 1 == 1) == ((b / 2) % 2 == 1)) by (bit_vector);
    assert(((b >> 2usize) & 1 == 1) == ((b / 4) % 2 == 1)) by (bit_vector);
    assert(((b >> 3usize) & 1 == 1) == ((b / 8) % 2 == 1)) by (bit_vector);
    assert(((b >> 4usize) & 1 == 1) == ((b / 16) % 2 == 1)) by (bit_vector);
}

/// Clearing or setting bit `i` of a mask flips generator `i` and keeps the others.
pub proof fn lemma_flip_bit(b: usize, i: usize)
    requires
        b < 32,
        i < 5,
    ensures
        (b & !(1usize << i)) < 32,
        (b | (1usize << i)) < 32,
        forall|j: int|
            0 <= j < 5 ==> has_gen((b & !(1usize << i)) as int, j) == (j != i && has_gen(
                b as int,
                j,
            )),
        forall|j: int|
            0 <= j < 5 ==> has_gen((b | (1usize << i)) as int, j) == (j == i || has_gen(
                b as int,
                j,
            )),
{
    let c = b & !(1usize << i);
    let s = b | (1usize << i);
    assert(c < 32 && s < 32) by (bit_vector)
        requires
            b < 32,
            i < 5,
            c == b & !(1usize << i),
            s == b | (1usize << i),
    ;
    assert forall|j: int| 0 <= j < 5 implies has_gen(c as int, j) == (j != i && has_gen(
        b as int,
        j,
    )) && has_gen(s as int, j) == (j == i || has_gen(b as int, j)) by {
        let ju = j as usize;
        lemma_bit_is_gen(b, ju);
        lemma_bit_is_gen(c, ju);
        lemma_bit_is_gen(s, ju);
        assert(((c >> ju) & 1 == 1) == (ju != i && ((b >> ju) & 1 == 1)) && ((s >> ju) & 1 == 1)
            == (ju == i || ((b >> ju) & 1 == 1))) by (bit_vector)
            requires
                b < 32,
                i < 5,
                ju < 5,
                c == b & !(1usize << i),
                s == b | (1usize << i),
        ;
    }
}

/// Two masks below 32 with the same generators are the same mask.
pub proof fn lemma_same_gens(x: int, y: int)
    requires
        0 <= x < 32,
        0 <= y < 32,
        forall|i: int| 0 <= i < 5 ==> has_gen(x, i) == has_gen(y, i),
    ensures
        x == y,
{
    lemma_mask_of_gens(x);
    lemma_mask_of_gens(y);
}

/// Multiplying twice by the same blade gives back the other factor's blade, and
/// the blade of a product does not depend on the order of the factors.
pub proof fn lemma_blade_xor_cancel(a: int, k: int)
    requires
        0 <= a < 32,
        0 <= k < 32,
    ensures
        0 <= blade_xor(a, k) < 32,
        blade_xor(a, blade_xor(a, k)) == k,
        blade_xor(a, k) == blade_xor(k, a),
        blade_xor(a, a) == 0,
        blade_xor(a, 0) == a,
{
    lemma_blade_xor(a, k);
    lemma_blade_xor(k, a);
    lemma_blade_xor(a, blade_xor(a, k));
    lemma_blade_xor(a, a);
    lemma_blade_xor(a, 0);
    lemma_mask_of_gens(0);
    lemma_same_gens(blade_xor(a, blade_xor(a, k)), k);
    lemma_same_gens(blade_xor(a, k), blade_xor(k, a));
    lemma_same_gens(blade_xor(a, a), 0);
    lemma_same_gens(blade_xor(a, 0), a);
}

/// The blade of a product is the exclusive or of the masks of the factors.
pub proof fn lemma_xor_of_masks(a: usize, b: usize)
    requires
        a < 32,
        b < 32,
    ensures
        (a ^ b) < 32,
        (a ^ b) == blade_xor(a as int, b as int),
{
    let x = a ^ b;
    assert(x < 32) by (bit_vector)
        requires
            a < 32,
            b < 32,
            x == a ^ b,
    ;
    lemma_blade_xor(a as int, b as int);
    assert forall|i: int| 0 <= i < 5 implies has_gen(x as int, i) == has_gen(
        blade_xor(a as int, b as int),
        i,
    ) by {
        let iu = i as usize;
        lemma_bit_is_gen(a, iu);
        lemma_bit_is_gen(b, iu);
        lemma_bit_is_gen(x, iu);
        assert(((x >> iu) & 1 == 1) == (((a >> iu) & 1 == 1) != ((b >> iu) & 1 == 1)))
            by (bit_vector)
            requires
                x == a ^ b,
        ;
    }
    lemma_same_gens(x as int, blade_xor(a as int, b as int));
}

/// The scalar blade is the only one of grade 0, and the five generators are
/// blades of grade 1.
pub proof fn lemma_low_grades()
    ensures
        blade_grade(0) == 0,
        blade_grade(1) == 1,
        blade_grade(2) == 1,
        blade_grade(4) == 1,
        blade_grade(8) == 1,
        blade_grade(16) == 1,
        forall|b: int| 0 <= b < 32 && #[trigger] blade_grade(b) == 0 ==> b == 0,
        forall|b: int| 0 <= #[trigger] blade_grade(b) <= 5,
{
    reveal(has_gen);
    assert forall|b: int| 0 <= b < 32 && #[trigger] blade_grade(b) == 0 implies b == 0 by {
        lemma_mask_of_gens(b);
    }
}

/// The grade of the blade with mask `b`.
pub fn grade(b: usize) -> (k: u32)
    requires
        b < 32,
    ensures
        k == blade_grade(b as int),
        k <= 5,
{
    let mut k: u32 = 0;
    let mut i: usize = 0;
    while i < 5
        invariant
            b < 32,
            i <= 5,
            k <= i,
            k == gens_above(b as int, -1, i as int),
        decreases 5 - i,
    {
        proof {
            lemma_bit_is_gen(b, i);
        }
        if (b >> i) & 1 == 1 {
            k = k + 1;
        }
        i = i + 1;
    }
    proof {
        reveal_with_fuel(gens_above, 6);
    }
    k
}

/// The product of the basis blades `a` and `b`: its sign and its blade.
///
/// The generators of `b` are brought into `a` one by one, lowest first. Each
/// changes the sign once for every generator of `a` above it that it has to
/// pass, and then either joins the blade or meets itself and leaves it; where
/// e- meets itself the sign changes once more.
pub fn basis_product_logic(a: usize, b: usize) -> (r: (i64, usize))
    requires
        a < 32,
        b < 32,
    ensures
        r.0 == blade_sign(a as int, b as int),
        r.1 == blade_xor(a as int, b as int),
        r.1 == a ^ b,
{
    let mut sign: i64 = 1;
    let mut a_bits: usize = a;
    let mut i: usize = 0;
    let ghost mut flips: int = 0;
    while i < 5
        invariant
            a < 32,
            b < 32,
            i <= 5,
            a_bits < 32,
            forall|j: int|
                0 <= j < 5 ==> has_gen(a_bits as int, j) == if j < i {
                    has_gen(a as int, j) != has_gen(b as int, j)
                } else {
                    has_gen(a as int, j)
                },
            flips == transpositions(a as int, b as int, i as int) + count_if(
                i == 5 && has_gen(a as int, 4) && has_gen(b as int, 4),
            ),
            sign == if flips % 2 == 0 { 1int } else { -1int },
        decreases 5 - i,
    {
        proof {
            lemma_bit_is_gen(b, i);
            lemma_bit_is_gen(a_bits, i);
            lemma_flip_bit(a_bits, i);
        }
        if (b >> i) & 1 == 1 {
            let mut j: usize = i + 1;
            let ghost before = flips;
            while j < 5
                invariant
                    i < 5,
                    i < j <= 5,
                    a < 32,
                    a_bits < 32,
                    forall|t: int|
                        i < t < 5 ==> has_gen(a_bits as int, t) == has_gen(a as int, t),
                    flips == before + gens_above(a as int, i as int, j as int),
                    sign == if flips % 2 == 0 { 1int } else { -1int },
                decreases 5 - j,
            {
                proof {
                    lemma_bit_is_gen(a_bits, j);
                }
                if (a_bits >> j) & 1 == 1 {
                    sign = -sign;
                    proof {
                        flips = flips + 1;
                    }
                }
                j = j + 1;
            }
            if (a_bits >> i) & 1 == 1 {
                if i == 4 {
                    sign = -sign;
                    proof {
                        flips = flips + 1;
                    }
                }
                a_bits = a_bits & !(1usize << i);
            } else {
                a_bits = a_bits | (1usize << i);
            }
        }
        i = i + 1;
    }
    proof {
        lemma_blade_xor(a as int, b as int);
        lemma_same_gens(a_bits as int, blade_xor(a as int, b as int));
        lemma_xor_of_masks(a, b);
    }
    (sign, a_bits)
}

} // verus!
