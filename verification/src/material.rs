//! Counting material, and the order in which the squares are visited by the
//! positional evaluator.

use vstd::prelude::*;
use crate::position::{Color, Piece, Position, Squares};

verus! {

/// The material value of a piece in hundredths of a pawn. The king is not
/// counted.
pub open spec fn centipawns(piece: Piece) -> int {
    match piece {
        Piece::Pawn => 100,
        Piece::Knight => 320,
        Piece::Bishop => 330,
        Piece::Rook => 500,
        Piece::Queen => 900,
        Piece::King => 0,
    }
}

/// What the content of one square adds to the material of `color`.
pub open spec fn square_material(content: Option<(Color, Piece)>, color: Color) -> int {
    match content {
        Some(occupant) => if occupant.0 == color {
            centipawns(occupant.1)
        } else {
            0
        },
        None => 0,
    }
}

/// The material of `color` on the squares below `n`.
pub open spec fn material_upto(squares: Squares, color: Color, n: int) -> int
    decreases n,
{
    if n <= 0 {
        0
    } else {
        material_upto(squares, color, n - 1) + square_material(squares[n - 1], color)
    }
}

/// The material of `color` on the board.
pub open spec fn material(squares: Squares, color: Color) -> int {
    material_upto(squares, color, 64)
}

/// The number that stands for the content of a square: 0 for an empty one, 1
/// to 6 for a white pawn, knight, bishop, rook, queen, king, 7 to 12 for the
/// black ones.
pub open spec fn piece_index(content: Option<(Color, Piece)>) -> int {
    match content {
        None => 0,
        Some(occupant) => (if occupant.0 == Color::White {
            0int
        } else {
            6int
        }) + match occupant.1 {
            Piece::Pawn => 1int,
            Piece::Knight => 2int,
            Piece::Bishop => 3int,
            Piece::Rook => 4int,
            Piece::Queen => 5int,
            Piece::King => 6int,
        },
    }
}

/// The square that is visited at step `i` of the path that snakes through the
/// board: the even ranks from left to right, the odd ones from right to left.
pub open spec fn snake_square(i: int) -> int {
    if (i / 8) % 2 == 0 {
        i
    } else {
        (i / 8) * 8 + 7 - i % 8
    }
}

/// The material of `color` on the squares below `n` is at most `900 * n`.
pub proof fn lemma_material_bound(squares: Squares, color: Color, n: int)
    requires
        0 <= n,
    ensures
        0 <= material_upto(squares, color, n) <= 900 * n,
    decreases n,
{
    if n > 0 {
        lemma_material_bound(squares, color, n - 1);
    }
}

/// The material value of a piece in hundredths of a pawn.
pub fn piece_centipawns(piece: Piece) -> (v: i32)
    ensures
        v == centipawns(piece),
{
    match piece {
        Piece::Pawn => 100,
        Piece::Knight => 320,
        Piece::Bishop => 330,
        Piece::Rook => 500,
        Piece::Queen => 900,
        Piece::King => 0,
    }
}

/// The material of the side `color`.
pub fn material_score(position: &Position, color: Color) -> (s: i32)
    ensures
        s == material(position.squares@, color),
        0 <= s <= 57_600,
{
    let mut s: i32 = 0;
    let mut sq: usize = 0;
    while sq < 64
        invariant
            sq <= 64,
            s == material_upto(position.squares@, color, sq as int),
            0 <= s <= 900 * sq,
        decreases 64 - sq,
    {
        proof {
            lemma_material_bound(position.squares@, color, sq as int + 1);
        }
        match position.squares[sq] {
            Some(occupant) => {
                let same = match (occupant.0, color) {
                    (Color::White, Color::White) => true,
                    (Color::Black, Color::Black) => true,
                    _ => false,
                };
                if same {
                    s = s + piece_centipawns(occupant.1);
                }
            },
            None => {},
        }
        sq = sq + 1;
    }
    s
}

/// The material of the side to move less that of the other side.
pub fn material_balance(position: &Position) -> (s: i32)
    ensures
        s == material(position.squares@, position.side_to_move) - material(
            position.squares@,
            match position.side_to_move {
                Color::White => Color::Black,
                Color::Black => Color::White,
            },
        ),
{
    let us = position.side_to_move;
    let them = match us {
        Color::White => Color::Black,
        Color::Black => Color::White,
    };
    material_score(position, us) - material_score(position, them)
}

/// The number that stands for the content of the square `sq`.
pub fn get_piece_index(position: &Position, sq: usize) -> (index: usize)
    requires
        sq < 64,
    ensures
        index == piece_index(position.squares@[sq as int]),
        index <= 12,
{
    match position.squares[sq] {
        None => 0,
        Some(occupant) => {
            let color_offset: usize = match occupant.0 {
                Color::White => 0,
                Color::Black => 6,
            };
            let piece_val: usize = match occupant.1 {
                Piece::Pawn => 1,
                Piece::Knight => 2,
                Piece::Bishop => 3,
                Piece::Rook => 4,
                Piece::Queen => 5,
                Piece::King => 6,
            };
            color_offset + piece_val
        },
    }
}

/// The path that snakes through the board, as the list of its 64 squares.
pub fn snake_path() -> (path: Vec<usize>)
    ensures
        path@.len() == 64,
        forall|i: int| 0 <= i < 64 ==> #[trigger] path@[i] == snake_square(i),
        forall|i: int| 0 <= i < 64 ==> #[trigger] path@[i] < 64,
{
    let mut path: Vec<usize> = Vec::with_capacity(64);
    let mut i: usize = 0;
    while i < 64
        invariant
            i <= 64,
            path@.len() == i,
            forall|j: int| 0 <= j < i ==> #[trigger] path@[j] == snake_square(j),
            forall|j: int| 0 <= j < i ==> #[trigger] path@[j] < 64,
        decreases 64 - i,
    {
        let row = i / 8;
        if row % 2 == 0 {
            path.push(i);
        } else {
            path.push(row * 8 + 7 - i % 8);
        }
        i = i + 1;
    }
    path
}

} // verus!
