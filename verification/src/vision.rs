//! The vision evaluator: what the sliding pieces see along their lines, and
//! what that is worth.
//!
//! Scores are integers in thousandths of a point, opacities in percent.

use vstd::prelude::*;
use vstd::arithmetic::power2::{lemma2_to64, lemma_pow2_pos, pow2};
use crate::cga::Multivector5D;
use crate::conformal::{
    board_point, board_points, diagonal, lattice_point, lemma_diagonal, lemma_lattice_point,
    BoardSpace,
};
use crate::model::{
    lemma_inner_of_high_grade, lemma_line_blades_inner, lemma_product_bound, Mv,
};
use crate::position::{Color, Piece, Position, Squares};
use crate::tables::{gp_table, ProductEngine};
use crate::targets::{lemma_stable_sort, sort_by_distance, stable_sort, Target};

verus! {

/// The threshold of the incidence test is `EPSILON_NUM / EPSILON_DEN`: a point
/// lies on a blade where the absolute value of their inner product is less.
pub const EPSILON_NUM: u32 = 1;

/// See [`EPSILON_NUM`].
pub const EPSILON_DEN: u32 = 100;

/// The opacity with which a line of sight starts, in percent.
pub const FULL_OPACITY: i64 = 100;

/// The share of the opacity that is left behind a friendly piece, in percent.
pub const FRIEND_TRANSPARENCY: i64 = 20;

/// A line of sight ends once its opacity is below this, in percent.
pub const OPACITY_CUTOFF: i64 = 5;

/// The weight of seeing an enemy piece, in tenths: 5.0.
pub const ENEMY_WEIGHT: i64 = 50;

/// The weight of seeing a friendly piece, in tenths: 0.5.
pub const FRIEND_WEIGHT: i64 = 5;

/// The largest absolute value of what one seen piece adds to the score.
pub const HIT_LIMIT: i64 = 45_000;

/// The value of a piece: pawn 1, knight and bishop 3, rook 5, queen 9; the
/// king counts 0 here.
pub open spec fn piece_value(piece: Piece) -> int {
    match piece {
        Piece::Pawn => 1,
        Piece::Knight => 3,
        Piece::Bishop => 3,
        Piece::Rook => 5,
        Piece::Queen => 9,
        Piece::King => 0,
    }
}

/// The blade along which a piece on the point `p` looks: a rook along its rook
/// line, a bishop along its one diagonal, a queen along the sum of the two.
/// The other pieces do not slide and have none.
pub open spec fn slider_blade(piece: Piece, p: Mv) -> Option<Mv> {
    match piece {
        Piece::Rook => Some(p.rook_blade()),
        Piece::Bishop => Some(p.bishop_blade()),
        Piece::Queen => Some(p.queen_blade()),
        _ => None,
    }
}

/// The incidence test: whether the inner product of the blade and the point is
/// below the threshold in absolute value.
pub open spec fn incident(blade: Mv, q: Mv) -> bool {
    blade.inner(q).abs_below(EPSILON_NUM as int, EPSILON_DEN as int)
}

/// The squared distance between two squares on the board.
pub open spec fn distance_squared(a: int, b: int) -> int {
    (a / 8 - b / 8) * (a / 8 - b / 8) + (a % 8 - b % 8) * (a % 8 - b % 8)
}

/// The occupied squares below `n`, other than `s`, that are incident to
/// `blade`, each with its distance from `s`, in ascending order of square.
pub open spec fn collect_targets(squares: Squares, blade: Mv, s: int, n: int) -> Seq<Target>
    decreases n,
{
    if n <= 0 {
        Seq::empty()
    } else {
        let rest = collect_targets(squares, blade, s, n - 1);
        let o = n - 1;
        if o != s && squares[o] is Some && incident(blade, board_point(o)) {
            rest.push((distance_squared(s, o) as i32, o as usize))
        } else {
            rest
        }
    }
}

/// What seeing the piece `target` at the given opacity adds to the score of
/// `us`: its value times the weight for an enemy or for a friend of `us`,
/// counted for `us` where the piece that looks is one of ours, against
/// otherwise.
pub open spec fn hit_score(us: Color, actor: Color, target: (Color, Piece), opacity: int) -> int {
    let weight = if target.0 != us {
        ENEMY_WEIGHT as int
    } else {
        FRIEND_WEIGHT as int
    };
    let gain = weight * piece_value(target.1) * opacity;
    if actor == us {
        gain
    } else {
        -gain
    }
}

/// The opacity behind the piece `target`: an enemy of `us` blocks the line, a
/// friend lets a share of it through.
pub open spec fn opacity_behind(us: Color, target: (Color, Piece), opacity: int) -> int {
    if target.0 != us {
        0
    } else {
        opacity * FRIEND_TRANSPARENCY as int / 100
    }
}

/// The score of walking along `targets` from entry `from` on with the given
/// opacity. The walk ends with the last target, or once the opacity is below
/// the cutoff.
pub open spec fn walk_from(
    squares: Squares,
    us: Color,
    actor: Color,
    targets: Seq<Target>,
    from: int,
    opacity: int,
) -> int
    decreases targets.len() - from,
{
    if from < 0 || from >= targets.len() || opacity < OPACITY_CUTOFF {
        0
    } else {
        match squares[targets[from].1 as int] {
            Some(target) => hit_score(us, actor, target, opacity) + walk_from(
                squares,
                us,
                actor,
                targets,
                from + 1,
                opacity_behind(us, target, opacity),
            ),
            None => walk_from(squares, us, actor, targets, from + 1, opacity),
        }
    }
}

/// What the piece on square `s` adds to the vision score of `us`: nothing
/// where the square is empty or its piece does not slide; else the score of
/// the walk along the squares incident to its blade, nearest first.
pub open spec fn piece_vision(squares: Squares, us: Color, s: int) -> int {
    match squares[s] {
        Some(occupant) => match slider_blade(occupant.1, board_point(s)) {
            Some(blade) => walk_from(
                squares,
                us,
                occupant.0,
                stable_sort(collect_targets(squares, blade, s, 64)),
                0,
                FULL_OPACITY as int,
            ),
            None => 0,
        },
        None => 0,
    }
}

/// The sum of what the pieces on the squares below `n` add.
pub open spec fn vision_upto(squares: Squares, us: Color, n: int) -> int
    decreases n,
{
    if n <= 0 {
        0
    } else {
        vision_upto(squares, us, n - 1) + piece_vision(squares, us, n - 1)
    }
}

/// The vision score of a position for the side `us`.
pub open spec fn vision_score(squares: Squares, us: Color) -> int {
    vision_upto(squares, us, 64)
}

/// At most `n` targets are found below square `n`, and each is a square of
/// the board.
pub proof fn lemma_collect_targets(squares: Squares, blade: Mv, s: int, n: int)
    requires
        0 <= n <= 64,
    ensures
        collect_targets(squares, blade, s, n).len() <= n,
        forall|i: int|
            0 <= i < collect_targets(squares, blade, s, n).len() ==> (#[trigger] collect_targets(
                squares,
                blade,
                s,
                n,
            )[i]).1 < n,
    decreases n,
{
    if n > 0 {
        lemma_collect_targets(squares, blade, s, n - 1);
    }
}

/// Sorting keeps every target on a square of the board.
pub proof fn lemma_sorted_squares(found: Seq<Target>)
    requires
        forall|i: int| 0 <= i < found.len() ==> (#[trigger] found[i]).1 < 64,
    ensures
        forall|i: int| 0 <= i < stable_sort(found).len() ==> (#[trigger] stable_sort(found)[i]).1
            < 64,
{
    broadcast use vstd::seq_lib::group_to_multiset_ensures;

    lemma_stable_sort(found);
    let sorted = stable_sort(found);
    assert forall|i: int| 0 <= i < sorted.len() implies (#[trigger] sorted[i]).1 < 64 by {
        assert(sorted.to_multiset().count(sorted[i]) > 0);
        assert(found.to_multiset().count(sorted[i]) > 0);
        assert(found.contains(sorted[i]));
    }
}

/// One seen piece adds at most `HIT_LIMIT` to the score, either way, and the
/// opacity behind it is again between 0 and 100 percent.
pub proof fn lemma_hit_bound(us: Color, actor: Color, target: (Color, Piece), opacity: int)
    requires
        0 <= opacity <= 100,
    ensures
        -HIT_LIMIT <= hit_score(us, actor, target, opacity) <= HIT_LIMIT,
        0 <= opacity_behind(us, target, opacity) <= 100,
{
    let v = piece_value(target.1);
    let w = if target.0 != us {
        ENEMY_WEIGHT as int
    } else {
        FRIEND_WEIGHT as int
    };
    assert(0 <= w * v * opacity <= 45_000) by (nonlinear_arith)
        requires
            0 <= w <= 50,
            0 <= v <= 9,
            0 <= opacity <= 100,
    ;
}

/// A walk adds at most `HIT_LIMIT` for each target that is left.
pub proof fn lemma_walk_bound(
    squares: Squares,
    us: Color,
    actor: Color,
    targets: Seq<Target>,
    from: int,
    opacity: int,
)
    requires
        0 <= from <= targets.len(),
        0 <= opacity <= 100,
    ensures
        -HIT_LIMIT * (targets.len() - from) <= walk_from(squares, us, actor, targets, from, opacity)
            <= HIT_LIMIT * (targets.len() - from),
    decreases targets.len() - from,
{
    if from >= targets.len() || opacity < OPACITY_CUTOFF {
    } else {
        match squares[targets[from].1 as int] {
            Some(target) => {
                lemma_hit_bound(us, actor, target, opacity);
                lemma_walk_bound(
                    squares,
                    us,
                    actor,
                    targets,
                    from + 1,
                    opacity_behind(us, target, opacity),
                );
            },
            None => {
                lemma_walk_bound(squares, us, actor, targets, from + 1, opacity);
            },
        }
    }
}

/// One piece adds at most 64 times `HIT_LIMIT` to the vision score.
pub proof fn lemma_piece_vision_bound(squares: Squares, us: Color, s: int)
    ensures
        -64 * HIT_LIMIT <= piece_vision(squares, us, s) <= 64 * HIT_LIMIT,
{
    match squares[s] {
        Some(occupant) => match slider_blade(occupant.1, board_point(s)) {
            Some(blade) => {
                let found = collect_targets(squares, blade, s, 64);
                lemma_collect_targets(squares, blade, s, 64);
                lemma_stable_sort(found);
                lemma_walk_bound(squares, us, occupant.0, stable_sort(found), 0, 100);
            },
            None => {},
        },
        None => {},
    }
}

/// The pieces on the squares below `n` add at most `n` times that, which is
/// 2 880 000.
pub proof fn lemma_vision_bound(squares: Squares, us: Color, n: int)
    requires
        0 <= n,
    ensures
        -2_880_000 * n <= vision_upto(squares, us, n) <= 2_880_000 * n,
    decreases n,
{
    if n > 0 {
        lemma_vision_bound(squares, us, n - 1);
        lemma_piece_vision_bound(squares, us, n - 1);
    }
}

/// The blades of the sliding pieces on the squares of the board can be
/// stored, and so can every step in building them.
pub proof fn lemma_board_blades(sq: int)
    requires
        0 <= sq < 64,
    ensures
        board_point(sq).fits(),
        board_point(sq).wedge(Mv::basis(1)).fits(),
        board_point(sq).rook_blade().fits(),
        board_point(sq).wedge(Mv::basis(1).plus(Mv::basis(2))).fits(),
        board_point(sq).bishop_blade().fits(),
        board_point(sq).queen_blade().fits(),
        board_point(sq).rook_blade().shift == 1,
        board_point(sq).bishop_blade().shift == 1,
        board_point(sq).queen_blade().shift == 1,
{
    let x = sq % 8;
    let y = sq / 8;
    lemma_lattice_point(x, y);
    lemma_diagonal();
    lemma2_to64();
    let p = board_point(sq);
    assert(p == lattice_point(x, y));
    assert(0 <= x * x <= 49 && 0 <= y * y <= 49) by (nonlinear_arith)
        requires
            0 <= x <= 7,
            0 <= y <= 7,
    ;
    assert(p.bounded(99));
    let e1 = Mv::basis(1);
    let ninf = Mv::n_inf();
    let diag = diagonal();
    assert(e1.bounded(1));
    assert(ninf.bounded(1));
    assert(diag.bounded(1));
    lemma_product_bound(p, e1, 99, 1);
    lemma_product_bound(p.wedge(e1), ninf, 3168, 1);
    lemma_product_bound(p, diag, 99, 1);
    lemma_product_bound(p.wedge(diag), ninf, 3168, 1);
    let rook = p.rook_blade();
    let bishop = p.bishop_blade();
    assert(rook.bounded(101376));
    assert(bishop.bounded(101376));
    let one = pow2(0) as int;
    assert forall|i: int| 0 <= i < 32 implies -202752 <= #[trigger] p.queen_blade().coeffs[i]
        <= 202752 by {
        let a = rook.coeffs[i];
        let b = bishop.coeffs[i];
        assert(a * one + b * one == a + b) by (nonlinear_arith)
            requires
                one == 1,
        ;
    }
}

/// Whether the incidence test of `blade` against the points of the board can
/// be computed: the blade can be stored, and so can its inner product with
/// each of those points.
pub open spec fn testable(blade: Mv) -> bool {
    blade.fits() && forall|o: int| 0 <= o < 64 ==> #[trigger] blade.inner(board_point(o)).fits()
}

/// Every point is incident to every blade that has no part below grade 2: the
/// restricted inner product reads only the scalar and vector part of the
/// blade, so it is zero.
pub proof fn lemma_always_incident(blade: Mv, q: Mv)
    requires
        blade.min_grade(2),
    ensures
        blade.inner(q).m == 0,
        incident(blade, q),
{
    lemma_inner_of_high_grade(blade, q);
    lemma_pow2_pos(blade.inner(q).shift);
    let p = pow2(blade.inner(q).shift) as int;
    assert(1 * p > 0 && 0 * 100 == 0) by (nonlinear_arith)
        requires
            p > 0,
    ;
}

/// The occupied squares below `n`, other than `s`, each with its distance from
/// `s`, in ascending order of square.
pub open spec fn other_pieces(squares: Squares, s: int, n: int) -> Seq<Target>
    decreases n,
{
    if n <= 0 {
        Seq::empty()
    } else {
        let rest = other_pieces(squares, s, n - 1);
        let o = n - 1;
        if o != s && squares[o] is Some {
            rest.push((distance_squared(s, o) as i32, o as usize))
        } else {
            rest
        }
    }
}

/// A blade without a part below grade 2 finds every other piece on the board:
/// the incidence test leaves none out.
pub proof fn lemma_every_piece_is_found(squares: Squares, blade: Mv, s: int, n: int)
    requires
        blade.min_grade(2),
    ensures
        collect_targets(squares, blade, s, n) == other_pieces(squares, s, n),
    decreases n,
{
    if n > 0 {
        lemma_every_piece_is_found(squares, blade, s, n - 1);
        lemma_always_incident(blade, board_point(n - 1));
    }
}

/// A sliding piece looks at every other piece on the board, nearest first,
/// whether or not it stands on the line of the piece.
pub proof fn lemma_slider_sees_every_piece(squares: Squares, us: Color, s: int)
    requires
        0 <= s < 64,
        squares[s] is Some,
        slider_blade((squares[s]->0).1, board_point(s)) is Some,
    ensures
        piece_vision(squares, us, s) == walk_from(
            squares,
            us,
            (squares[s]->0).0,
            stable_sort(other_pieces(squares, s, 64)),
            0,
            FULL_OPACITY as int,
        ),
{
    let p = board_point(s);
    lemma_lattice_point(s % 8, s / 8);
    lemma_line_blades_inner(p, Mv::zero());
    let blade = slider_blade((squares[s]->0).1, p)->0;
    lemma_every_piece_is_found(squares, blade, s, 64);
}

/// The incidence test of a blade without a part below grade 2 can be
/// computed, as long as the blade can be stored with room for one more binary
/// place.
pub proof fn lemma_line_blade_testable(blade: Mv)
    requires
        blade.fits(),
        blade.shift < u32::MAX,
        blade.min_grade(2),
    ensures
        testable(blade),
{
    assert forall|o: int| 0 <= o < 64 implies #[trigger] blade.inner(board_point(o)).fits() by {
        lemma_lattice_point(o % 8, o / 8);
        lemma_inner_of_high_grade(blade, board_point(o));
    }
}

/// The value of a piece.
pub fn value_of(piece: Piece) -> (v: i64)
    ensures
        v == piece_value(piece),
{
    match piece {
        Piece::Pawn => 1,
        Piece::Knight => 3,
        Piece::Bishop => 3,
        Piece::Rook => 5,
        Piece::Queen => 9,
        Piece::King => 0,
    }
}

/// The squared distance between two squares of the board.
pub fn squared_distance(a: usize, b: usize) -> (d: i32)
    requires
        a < 64,
        b < 64,
    ensures
        d == distance_squared(a as int, b as int),
        0 <= d <= 98,
{
    let dr: i32 = (a / 8) as i32 - (b / 8) as i32;
    let df: i32 = (a % 8) as i32 - (b % 8) as i32;
    assert(0 <= dr * dr <= 49 && 0 <= df * df <= 49) by (nonlinear_arith)
        requires
            -7 <= dr <= 7,
            -7 <= df <= 7,
    ;
    dr * dr + df * df
}

/// The vision evaluator, with the tables that it reads: the product engine
/// and the points of the squares.
pub struct VisionEvaluator {
    engine: ProductEngine,
    board_space: BoardSpace,
}

impl VisionEvaluator {
    /// The flattened product table that the evaluator holds.
    pub closed spec fn product_table(&self) -> Seq<(int, int, int)> {
        self.engine@
    }

    /// The points of the squares that the evaluator holds.
    pub closed spec fn points(&self) -> Seq<Mv> {
        self.board_space@
    }

    /// Builds the evaluator and its tables.
    pub fn new() -> (r: VisionEvaluator)
        ensures
            r.product_table() == gp_table(),
            r.points() == board_points(),
    {
        VisionEvaluator { engine: ProductEngine::new(), board_space: BoardSpace::new() }
    }

    /// The product engine of the evaluator.
    pub fn engine(&self) -> (e: &ProductEngine)
        ensures
            e@ == self.product_table(),
    {
        &self.engine
    }

    /// The points of the squares.
    pub fn board_space(&self) -> (b: &BoardSpace)
        ensures
            b@ == self.points(),
    {
        &self.board_space
    }

    /// The blade of a piece of the kind `piece` on the square `sq`, if that
    /// kind slides.
    pub fn blade_on(&self, piece: Piece, sq: usize) -> (r: Option<Multivector5D>)
        requires
            sq < 64,
        ensures
            match r {
                Some(b) => slider_blade(piece, board_point(sq as int)) == Some(b@) && testable(b@)
                    && b@.min_grade(2),
                None => slider_blade(piece, board_point(sq as int)) is None,
            },
    {
        let p_vec = self.board_space.point_of(sq);
        proof {
            let p = board_point(sq as int);
            lemma_board_blades(sq as int);
            lemma_line_blades_inner(p, Mv::zero());
            lemma_line_blade_testable(p.rook_blade());
            lemma_line_blade_testable(p.bishop_blade());
            lemma_line_blade_testable(p.queen_blade());
        }
        match piece {
            Piece::Rook => Some(Multivector5D::rook_blade(&p_vec, &self.engine)),
            Piece::Bishop => Some(Multivector5D::bishop_blade(&p_vec, &self.engine)),
            Piece::Queen => Some(Multivector5D::queen_blade(&p_vec, &self.engine)),
            _ => None,
        }
    }

    /// Whether the point of the square `sq` is incident to `blade`.
    pub fn is_incident(&self, blade: &Multivector5D, sq: usize) -> (r: bool)
        requires
            sq < 64,
            testable(blade@),
        ensures
            r == incident(blade@, board_point(sq as int)),
    {
        let other_p = self.board_space.point_of(sq);
        let intersection = blade.inner_product(&other_p);
        intersection.abs_below(EPSILON_NUM, EPSILON_DEN)
    }

    /// The occupied squares other than `sq` that are incident to `blade`, each
    /// with its squared distance from `sq`, in ascending order of square.
    pub fn find_targets(&self, position: &Position, blade: &Multivector5D, sq: usize) -> (found:
        Vec<Target>)
        requires
            sq < 64,
            testable(blade@),
        ensures
            found@ == collect_targets(position.squares@, blade@, sq as int, 64),
    {
        let mut targets: Vec<Target> = Vec::with_capacity(8);
        let mut other_sq: usize = 0;
        while other_sq < 64
            invariant
                sq < 64,
                other_sq <= 64,
                testable(blade@),
                targets@ == collect_targets(position.squares@, blade@, sq as int, other_sq as int),
            decreases 64 - other_sq,
        {
            if other_sq != sq && position.squares[other_sq].is_some() {
                if self.is_incident(blade, other_sq) {
                    let dist = squared_distance(sq, other_sq);
                    targets.push((dist, other_sq));
                }
            }
            other_sq = other_sq + 1;
        }
        targets
    }

    /// The score of the walk along `targets` for a piece of the side `actor`:
    /// each target adds its value at the opacity that is left, an enemy of the
    /// side to move then blocks the line, a friend dims it.
    pub fn walk(&self, position: &Position, actor: Color, targets: &Vec<Target>) -> (score: i64)
        requires
            targets@.len() <= 64,
            forall|i: int| 0 <= i < targets@.len() ==> (#[trigger] targets@[i]).1 < 64,
        ensures
            score == walk_from(
                position.squares@,
                position.side_to_move,
                actor,
                targets@,
                0,
                FULL_OPACITY as int,
            ),
    {
        let us = position.side_to_move;
        let mut score: i64 = 0;
        let mut opacity: i64 = FULL_OPACITY;
        let mut i: usize = 0;
        while i < targets.len() && opacity >= OPACITY_CUTOFF
            invariant
                i <= targets@.len() <= 64,
                forall|t: int| 0 <= t < targets@.len() ==> (#[trigger] targets@[t]).1 < 64,
                0 <= opacity <= 100,
                us == position.side_to_move,
                -45_000 * i <= score <= 45_000 * i,
                score + walk_from(position.squares@, us, actor, targets@, i as int, opacity as int)
                    == walk_from(position.squares@, us, actor, targets@, 0, FULL_OPACITY as int),
            decreases targets@.len() - i,
        {
            let target_sq = targets[i].1;
            match position.squares[target_sq] {
                Some(target) => {
                    let value = value_of(target.1);
                    proof {
                        lemma_hit_bound(us, actor, target, opacity as int);
                    }
                    let enemy = match (target.0, us) {
                        (Color::White, Color::White) => false,
                        (Color::Black, Color::Black) => false,
                        _ => true,
                    };
                    let ours = match (actor, us) {
                        (Color::White, Color::White) => true,
                        (Color::Black, Color::Black) => true,
                        _ => false,
                    };
                    let weight = if enemy {
                        ENEMY_WEIGHT
                    } else {
                        FRIEND_WEIGHT
                    };
                    assert(0 <= weight * value <= 450 && 0 <= weight * value * opacity <= 45_000)
                        by (nonlinear_arith)
                        requires
                            0 <= weight <= 50,
                            0 <= value <= 9,
                            0 <= opacity <= 100,
                    ;
                    let gain = weight * value * opacity;
                    if ours {
                        score = score + gain;
                    } else {
                        score = score - gain;
                    }
                    if enemy {
                        opacity = 0;
                    } else {
                        opacity = opacity * FRIEND_TRANSPARENCY / 100;
                    }
                },
                None => {},
            }
            i = i + 1;
        }
        score
    }

    /// What the piece on the square `sq` adds to the vision score of the side
    /// to move.
    pub fn piece_vision(&self, position: &Position, sq: usize) -> (score: i64)
        requires
            sq < 64,
        ensures
            score == piece_vision(position.squares@, position.side_to_move, sq as int),
            -64 * HIT_LIMIT <= score <= 64 * HIT_LIMIT,
    {
        proof {
            lemma_piece_vision_bound(position.squares@, position.side_to_move, sq as int);
        }
        match position.squares[sq] {
            None => 0,
            Some(occupant) => {
                match self.blade_on(occupant.1, sq) {
                    None => 0,
                    Some(blade) => {
                        let found = self.find_targets(position, &blade, sq);
                        let sorted = sort_by_distance(&found);
                        proof {
                            lemma_collect_targets(position.squares@, blade@, sq as int, 64);
                            lemma_stable_sort(found@);
                            lemma_sorted_squares(found@);
                        }
                        self.walk(position, occupant.0, &sorted)
                    },
                }
            },
        }
    }

    /// The vision score of the position for the side to move: the sum over
    /// all pieces of what each of them sees.
    pub fn calculate_cga_vision(&self, position: &Position) -> (score: i64)
        ensures
            score == vision_score(position.squares@, position.side_to_move),
    {
        let mut vision_score: i64 = 0;
        let mut sq: usize = 0;
        while sq < 64
            invariant
                sq <= 64,
                vision_score == vision_upto(
                    position.squares@,
                    position.side_to_move,
                    sq as int,
                ),
                -2_880_000 * sq <= vision_score <= 2_880_000 * sq,
            decreases 64 - sq,
        {
            proof {
                lemma_vision_bound(position.squares@, position.side_to_move, sq as int + 1);
            }
            vision_score = vision_score + self.piece_vision(position, sq);
            sq = sq + 1;
        }
        vision_score
    }
}

} // verus!
