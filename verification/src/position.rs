//! What the evaluator reads of a chess position: the side to move, and for
//! each of the 64 squares whether a piece stands on it, and which.
//!
//! Square `8 * rank + file` is the square on that rank and file, both counted
//! from 0, so that square 0 is a1 and square 63 is h8.

use vstd::prelude::*;

verus! {

/// The two sides.
#[derive(Clone, Copy, Debug, PartialEq, Eq, Structural)]
pub enum Color {
    White,
    Black,
}

/// The six kinds of pieces.
#[derive(Clone, Copy, Debug, PartialEq, Eq, Structural)]
pub enum Piece {
    Pawn,
    Knight,
    Bishop,
    Rook,
    Queen,
    King,
}

/// The content of the 64 squares.
pub type Squares = Seq<Option<(Color, Piece)>>;

/// A position: the pieces on the board and the side that is to move.
#[derive(Clone, Copy, Debug)]
pub struct Position {
    pub squares: [Option<(Color, Piece)>; 64],
    pub side_to_move: Color,
}

impl Color {
    /// The other side.
    pub fn opposite(self) -> (r: Color)
        ensures
            r != self,
    {
        match self {
            Color::White => Color::Black,
            Color::Black => Color::White,
        }
    }
}

impl Position {
    /// The position without any piece, with `side_to_move` to move.
    pub fn empty(side_to_move: Color) -> (r: Position)
        ensures
            r.side_to_move == side_to_move,
            forall|sq: int| 0 <= sq < 64 ==> r.squares@[sq] is None,
    {
        Position { squares: [None; 64], side_to_move }
    }

    /// Puts a piece on the square `sq`, in place of what stood there.
    pub fn put(&mut self, sq: usize, color: Color, piece: Piece)
        requires
            sq < 64,
        ensures
            final(self).side_to_move == old(self).side_to_move,
            final(self).squares@ == old(self).squares@.update(sq as int, Some((color, piece))),
    {
        self.squares[sq] = Some((color, piece));
    }

    /// The kind of the piece on the square `sq`, if there is one.
    pub fn piece_on(&self, sq: usize) -> (r: Option<Piece>)
        requires
            sq < 64,
        ensures
            r == match self.squares@[sq as int] {
                Some(occupant) => Some(occupant.1),
                None => None,
            },
    {
        match self.squares[sq] {
            Some(occupant) => Some(occupant.1),
            None => None,
        }
    }

    /// The side of the piece on the square `sq`, if there is one.
    pub fn color_on(&self, sq: usize) -> (r: Option<Color>)
        requires
            sq < 64,
        ensures
            r == match self.squares@[sq as int] {
                Some(occupant) => Some(occupant.0),
                None => None,
            },
    {
        match self.squares[sq] {
            Some(occupant) => Some(occupant.0),
            None => None,
        }
    }
}

} // verus!
