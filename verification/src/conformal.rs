//! The conformal embedding of the plane: points, translators, and the lines
//! along which the sliding pieces look.

use vstd::prelude::*;
use vstd::arithmetic::power2::{lemma2_to64, pow2};
use crate::cga::Multivector5D;
use crate::dyadic::{Dy, Dyadic};
use crate::model::{Mv, E1, E2, E_MINUS, E_PLUS};
use crate::tables::ProductEngine;

verus! {

/// The point of the integer coordinate (x, y), written out: over the
/// denominator 2 its numerators are 2x on e1, 2y on e2, x^2 + y^2 - 1 on e+
/// and x^2 + y^2 + 1 on e-.
pub open spec fn lattice_point(x: int, y: int) -> Mv {
    Mv {
        coeffs: Seq::new(
            32,
            |i: int|
                if i == E1 {
                    2 * x
                } else if i == E2 {
                    2 * y
                } else if i == E_PLUS {
                    x * x + y * y - 1
                } else if i == E_MINUS {
                    x * x + y * y + 1
                } else {
                    0
                },
        ),
        shift: 1,
    }
}

/// The vector e1 + e2 along the diagonal.
pub open spec fn diagonal() -> Mv {
    Mv { coeffs: Seq::new(32, |i: int| if i == E1 || i == E2 { 1int } else { 0int }), shift: 0 }
}

/// The sum of the basis vectors e1 and e2 is the diagonal vector.
pub proof fn lemma_diagonal()
    ensures
        Mv::basis(1).plus(Mv::basis(2)) == diagonal(),
        diagonal().fits(),
{
    lemma2_to64();
    let one = pow2(0) as int;
    assert(1 * one == 1 && 0 * one == 0) by (nonlinear_arith)
        requires
            one == 1,
    ;
    assert(Mv::basis(1).plus(Mv::basis(2)).coeffs =~= diagonal().coeffs);
}

/// For integer coordinates of moderate size every step in building the point
/// can be stored, and the point is the one written out above.
pub proof fn lemma_lattice_point(x: int, y: int)
    requires
        -1_000_000 <= x <= 1_000_000,
        -1_000_000 <= y <= 1_000_000,
    ensures
        Mv::point_fits(Dy::whole(x), Dy::whole(y)),
        Mv::point(Dy::whole(x), Dy::whole(y)) == lattice_point(x, y),
{
    lemma_lattice_point_value(x, y);
}

/// The point built step by step from integer coordinates is the one written
/// out above; for coordinates of moderate size every step can be stored.
pub proof fn lemma_lattice_point_value(x: int, y: int)
    ensures
        Mv::point(Dy::whole(x), Dy::whole(y)) == lattice_point(x, y),
        -1_000_000 <= x <= 1_000_000 && -1_000_000 <= y <= 1_000_000 ==> Mv::point_fits(
            Dy::whole(x),
            Dy::whole(y),
        ),
{
    lemma2_to64();
    let one = pow2(0) as int;
    let two = pow2(1) as int;
    let dx = Dy::whole(x);
    let dy = Dy::whole(y);
    let xx = dx.times(dx);
    let yy = dy.times(dy);
    if -1_000_000 <= x <= 1_000_000 && -1_000_000 <= y <= 1_000_000 {
        assert(0 <= x * x <= 1_000_000_000_000 && 0 <= y * y <= 1_000_000_000_000)
            by (nonlinear_arith)
            requires
                -1_000_000 <= x <= 1_000_000,
                -1_000_000 <= y <= 1_000_000,
        ;
    }
    let sq = x * x + y * y;
    assert((x * x) * one + (y * y) * one == sq) by (nonlinear_arith)
        requires
            one == 1,
            sq == x * x + y * y,
    ;
    assert(xx.plus(yy) == Dy { m: sq, shift: 0 });
    let h = xx.plus(yy).halved();
    let t1 = Mv::basis(1).scaled(dx);
    let t2 = Mv::basis(2).scaled(dy);
    let t3 = Mv::n_inf().scaled(h);
    assert forall|i: int| 0 <= i < 32 implies #[trigger] t1.coeffs[i] == (if i == E1 {
        x
    } else {
        0
    }) && #[trigger] t2.coeffs[i] == (if i == E2 {
        y
    } else {
        0
    }) && #[trigger] t3.coeffs[i] == (if i == E_PLUS || i == E_MINUS {
        sq
    } else {
        0
    }) by {
        assert(1 * x == x && 0 * x == 0 && 1 * y == y && 0 * y == 0 && 1 * sq == sq && 0 * sq
            == 0) by (nonlinear_arith);
    }
    let s1 = Mv::n_o().plus(t1);
    assert forall|i: int| 0 <= i < 32 implies #[trigger] s1.coeffs[i] == (if i == E1 {
        2 * x
    } else if i == E_PLUS {
        -1
    } else if i == E_MINUS {
        1
    } else {
        0
    }) by {
        assert(x * two == 2 * x && 0 * two == 0 && 1 * one == 1 && 0 * one == 0 && (-1) * one
            == -1) by (nonlinear_arith)
            requires
                one == 1,
                two == 2,
        ;
    }
    let s2 = s1.plus(t2);
    assert forall|i: int| 0 <= i < 32 implies #[trigger] s2.coeffs[i] == (if i == E1 {
        2 * x
    } else if i == E2 {
        2 * y
    } else if i == E_PLUS {
        -1
    } else if i == E_MINUS {
        1
    } else {
        0
    }) by {
        let c = s1.coeffs[i];
        assert(c * one == c && y * two == 2 * y && 0 * two == 0) by (nonlinear_arith)
            requires
                one == 1,
                two == 2,
        ;
    }
    let s3 = s2.plus(t3);
    assert forall|i: int| 0 <= i < 32 implies #[trigger] s3.coeffs[i] == lattice_point(
        x,
        y,
    ).coeffs[i] by {
        let c = s2.coeffs[i];
        let d = t3.coeffs[i];
        assert(c * one == c && d * one == d) by (nonlinear_arith)
            requires
                one == 1,
        ;
    }
    assert(s3.coeffs =~= lattice_point(x, y).coeffs);
}

/// The inner product of two points is minus half the squared distance between
/// them, and every point is a null vector.
pub proof fn lemma_point_distance(x1: int, y1: int, x2: int, y2: int)
    ensures
        lattice_point(x1, y1).inner(lattice_point(x2, y2)) == (Dy {
            m: -2 * ((x1 - x2) * (x1 - x2) + (y1 - y2) * (y1 - y2)),
            shift: 2,
        }),
        lattice_point(x1, y1).inner(lattice_point(x1, y1)).m == 0,
{
    let p = lattice_point(x1, y1);
    let q = lattice_point(x2, y2);
    let n1 = x1 * x1 + y1 * y1;
    let n2 = x2 * x2 + y2 * y2;
    assert(p.coeffs[0] == 0 && p.coeffs[4] == 0 && q.coeffs[0] == 0 && q.coeffs[4] == 0);
    assert(0 * 0 + (2 * x1) * (2 * x2) + (2 * y1) * (2 * y2) + 0 * 0 + (n1 - 1) * (n2 - 1) - (n1
        + 1) * (n2 + 1) == -2 * ((x1 - x2) * (x1 - x2) + (y1 - y2) * (y1 - y2)))
        by (nonlinear_arith)
        requires
            n1 == x1 * x1 + y1 * y1,
            n2 == x2 * x2 + y2 * y2,
    ;
    assert(0 * 0 + (2 * x1) * (2 * x1) + (2 * y1) * (2 * y1) + 0 * 0 + (n1 - 1) * (n1 - 1) - (n1
        + 1) * (n1 + 1) == 0) by (nonlinear_arith)
        requires
            n1 == x1 * x1 + y1 * y1,
    ;
}

/// The conformal point of the square `sq`: its file is the first coordinate,
/// its rank the second.
pub open spec fn board_point(sq: int) -> Mv {
    Mv::point(Dy::whole(sq % 8), Dy::whole(sq / 8))
}

/// The points of the 64 squares, in the order of the squares.
pub open spec fn board_points() -> Seq<Mv> {
    Seq::new(64, |sq: int| board_point(sq))
}

/// The points of the 64 squares, built once and then only read.
pub struct BoardSpace {
    points: Vec<Multivector5D>,
}

impl View for BoardSpace {
    type V = Seq<Mv>;

    closed spec fn view(&self) -> Seq<Mv> {
        Seq::new(self.points@.len(), |sq: int| self.points@[sq]@)
    }
}

impl BoardSpace {
    /// A table that satisfies its invariant holds the points of the squares.
    proof fn lemma_view(self)
        requires
            self.inv(),
        ensures
            self@ == board_points(),
    {
        assert(self@ =~= board_points());
    }

    #[verifier::type_invariant]
    spec fn inv(self) -> bool {
        &&& self.points@.len() == 64
        &&& forall|sq: int| 0 <= sq < 64 ==> (#[trigger] self.points@[sq])@ == board_point(sq)
    }

    /// Builds the table, rank by rank.
    pub fn new() -> (table: BoardSpace)
        ensures
            table@ == board_points(),
    {
        let mut points: Vec<Multivector5D> = Vec::with_capacity(64);
        let mut r: usize = 0;
        while r < 8
            invariant
                r <= 8,
                points@.len() == 8 * r,
                forall|sq: int| 0 <= sq < 8 * r ==> (#[trigger] points@[sq])@ == board_point(sq),
            decreases 8 - r,
        {
            let mut c: usize = 0;
            while c < 8
                invariant
                    r < 8,
                    c <= 8,
                    points@.len() == 8 * r + c,
                    forall|sq: int|
                        0 <= sq < 8 * r + c ==> (#[trigger] points@[sq])@ == board_point(sq),
                decreases 8 - c,
            {
                proof {
                    lemma_lattice_point(c as int, r as int);
                }
                let x = Dyadic::from_int(c as i64);
                let y = Dyadic::from_int(r as i64);
                let p = Multivector5D::point(x, y);
                points.push(p);
                c = c + 1;
            }
            r = r + 1;
        }
        let table = BoardSpace { points };
        proof {
            table.lemma_view();
        }
        table
    }

    /// The point of the square `sq`.
    pub fn point_of(&self, sq: usize) -> (p: Multivector5D)
        requires
            sq < 64,
        ensures
            p@ == self@[sq as int],
            self@ == board_points(),
            p@ == lattice_point(sq as int % 8, sq as int / 8),
            p.wf(),
    {
        proof {
            use_type_invariant(self);
            self.lemma_view();
            lemma_lattice_point(sq as int % 8, sq as int / 8);
        }
        self.points[sq]
    }
}

impl Multivector5D {
    /// The conformal point of the coordinate (x, y):
    /// n_o + x e1 + y e2 + (x^2 + y^2) / 2 n_inf.
    pub fn point(x: Dyadic, y: Dyadic) -> (r: Self)
        requires
            Mv::point_fits(x@, y@),
        ensures
            r@ == Mv::point(x@, y@),
    {
        let e1 = Self::e(1);
        let e2 = Self::e(2);
        let no = Self::n_o();
        let ninf = Self::n_inf();
        let half_square = x.times(&x).plus(&y.times(&y)).half();
        no.add(&e1.scale(x)).add(&e2.scale(y)).add(&ninf.scale(half_square))
    }

    /// The translator of the displacement d = (dx, dy): 1 - d n_inf / 2.
    pub fn translator(dx: Dyadic, dy: Dyadic, engine: &ProductEngine) -> (r: Self)
        requires
            Mv::translator_fits(dx@, dy@),
        ensures
            r@ == Mv::translator(dx@, dy@),
    {
        let one = Self::new_scalar(Dyadic::from_int(1));
        let d = Self::e(1).scale(dx).add(&Self::e(2).scale(dy));
        let ninf = Self::n_inf();
        let half = Dyadic::from_int(1).half();
        one.sub(&d.geometric_product(&ninf, engine).scale(half))
    }

    /// The line of a rook on the point `p`: p ^ e1 ^ n_inf, the whole line
    /// through `p` along the first axis.
    pub fn rook_blade(p: &Self, engine: &ProductEngine) -> (r: Self)
        requires
            p.wf(),
            p@.wedge(Mv::basis(1)).fits(),
            p@.rook_blade().fits(),
        ensures
            r@ == p@.rook_blade(),
    {
        let e1 = Self::e(1);
        let ninf = Self::n_inf();
        p.wedge(&e1, engine).wedge(&ninf, engine)
    }

    /// The line of a bishop on the point `p`: p ^ (e1 + e2) ^ n_inf. Only this
    /// one diagonal is built; the other one, along e1 - e2, is not.
    pub fn bishop_blade(p: &Self, engine: &ProductEngine) -> (r: Self)
        requires
            p.wf(),
            p@.wedge(Mv::basis(1).plus(Mv::basis(2))).fits(),
            p@.bishop_blade().fits(),
        ensures
            r@ == p@.bishop_blade(),
    {
        proof {
            lemma_diagonal();
        }
        let diag = Self::e(1).add(&Self::e(2));
        let ninf = Self::n_inf();
        p.wedge(&diag, engine).wedge(&ninf, engine)
    }

    /// The blade of a queen on the point `p`: the sum of the rook blade and
    /// the bishop blade.
    pub fn queen_blade(p: &Self, engine: &ProductEngine) -> (r: Self)
        requires
            p.wf(),
            p@.wedge(Mv::basis(1)).fits(),
            p@.rook_blade().fits(),
            p@.wedge(Mv::basis(1).plus(Mv::basis(2))).fits(),
            p@.bishop_blade().fits(),
            p@.queen_blade().fits(),
        ensures
            r@ == p@.queen_blade(),
    {
        Self::rook_blade(p, engine).add(&Self::bishop_blade(p, engine))
    }
}

} // verus!
