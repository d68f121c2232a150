//! The squares next to a square, and the squares that a piece reaches from it
//! in one step.

use vstd::prelude::*;
use crate::position::{Piece, Position, Squares};

verus! {

/// A step on the board: so many ranks up and so many files to the right.
pub type Offset = (i32, i32);

/// The eight steps to the squares around a square, rank by rank.
pub open spec fn king_offsets() -> Seq<Offset> {
    seq![
        (-1i32, -1i32),
        (-1i32, 0i32),
        (-1i32, 1i32),
        (0i32, -1i32),
        (0i32, 1i32),
        (1i32, -1i32),
        (1i32, 0i32),
        (1i32, 1i32),
    ]
}

/// The eight jumps of a knight.
pub open spec fn knight_offsets() -> Seq<Offset> {
    seq![
        (-2i32, -1i32),
        (-2i32, 1i32),
        (-1i32, -2i32),
        (-1i32, 2i32),
        (1i32, -2i32),
        (1i32, 2i32),
        (2i32, -1i32),
        (2i32, 1i32),
    ]
}

/// Whether the step `offset` from the square `sq` ends on the board.
pub open spec fn lands(sq: int, offset: Offset) -> bool {
    0 <= sq / 8 + offset.0 < 8 && 0 <= sq % 8 + offset.1 < 8
}

/// The square on which the step `offset` from `sq` ends.
pub open spec fn landing(sq: int, offset: Offset) -> int {
    (sq / 8 + offset.0) * 8 + (sq % 8 + offset.1)
}

/// The squares on which the first `n` of the steps `offsets` from `sq` end,
/// those left out that lead off the board.
pub open spec fn steps_upto(sq: int, offsets: Seq<Offset>, n: int) -> Seq<usize>
    decreases n,
{
    if n <= 0 {
        Seq::empty()
    } else {
        let rest = steps_upto(sq, offsets, n - 1);
        if lands(sq, offsets[n - 1]) {
            rest.push(landing(sq, offsets[n - 1]) as usize)
        } else {
            rest
        }
    }
}

/// The squares around `sq`.
pub open spec fn generic_neighbors(sq: int) -> Seq<usize> {
    steps_upto(sq, king_offsets(), 8)
}

/// The squares a knight's jump away from `sq`.
pub open spec fn knight_neighbors(sq: int) -> Seq<usize> {
    steps_upto(sq, knight_offsets(), 8)
}

/// The squares below `n` whose bit is set in `mask`, in ascending order.
pub open spec fn squares_upto(mask: u64, n: int) -> Seq<usize>
    decreases n,
{
    if n <= 0 {
        Seq::empty()
    } else {
        let rest = squares_upto(mask, n - 1);
        if (mask >> ((n - 1) as u64)) & 1 == 1 {
            rest.push((n - 1) as usize)
        } else {
            rest
        }
    }
}

/// The squares whose bit is set in `mask`, in ascending order.
pub open spec fn squares_of(mask: u64) -> Seq<usize> {
    squares_upto(mask, 64)
}

/// The set of the occupied squares below `n`, one bit for each.
pub open spec fn occupancy_upto(squares: Squares, n: int) -> u64
    decreases n,
{
    if n <= 0 {
        0
    } else {
        let rest = occupancy_upto(squares, n - 1);
        if squares[n - 1] is Some {
            rest | (1u64 << ((n - 1) as u64))
        } else {
            rest
        }
    }
}

/// The set of the occupied squares, one bit for each.
pub open spec fn occupancy(squares: Squares) -> u64 {
    occupancy_upto(squares, 64)
}

/// The squares that a rook on the square `sq` attacks when the squares in
/// `blockers` are occupied, as a set with one bit for each square.
pub uninterp spec fn rook_moves_of(sq: int, blockers: u64) -> u64;

/// The squares that a bishop on the square `sq` attacks when the squares in
/// `blockers` are occupied, as a set with one bit for each square.
pub uninterp spec fn bishop_moves_of(sq: int, blockers: u64) -> u64;

/// Calls `cozy_chess::get_rook_moves` for the square with index `sq` and the
/// blockers `blockers`, and hands back the bits of the set that it returns.
/// The call looks the set up in a table by square and blockers; its result is
/// given the name `rook_moves_of` and nothing more is claimed of it.
#[verifier::external_body]
fn rook_moves(sq: usize, blockers: u64) -> (moves: u64)
    requires
        sq < 64,
    ensures
        moves == rook_moves_of(sq as int, blockers),
{
    cozy_chess::get_rook_moves(cozy_chess::Square::index(sq), cozy_chess::BitBoard(blockers)).0
}

/// Calls `cozy_chess::get_bishop_moves` for the square with index `sq` and the
/// blockers `blockers`, and hands back the bits of the set that it returns.
/// The call looks the set up in a table by square and blockers; its result is
/// given the name `bishop_moves_of` and nothing more is claimed of it.
#[verifier::external_body]
fn bishop_moves(sq: usize, blockers: u64) -> (moves: u64)
    requires
        sq < 64,
    ensures
        moves == bishop_moves_of(sq as int, blockers),
{
    cozy_chess::get_bishop_moves(cozy_chess::Square::index(sq), cozy_chess::BitBoard(blockers)).0
}

/// The squares on which the steps `offsets` from `sq` end, those left out that
/// lead off the board.
fn steps(sq: usize, offsets: &[Offset; 8]) -> (r: Vec<usize>)
    requires
        sq < 64,
        forall|t: int|
            0 <= t < 8 ==> -2 <= (#[trigger] offsets@[t]).0 <= 2 && -2 <= offsets@[t].1 <= 2,
    ensures
        r@ == steps_upto(sq as int, offsets@, 8),
        r@.len() <= 8,
        forall|t: int| 0 <= t < r@.len() ==> #[trigger] r@[t] < 64,
{
    let mut neighbors: Vec<usize> = Vec::new();
    let row = (sq / 8) as i32;
    let col = (sq % 8) as i32;
    let mut t: usize = 0;
    while t < 8
        invariant
            t <= 8,
            sq < 64,
            row == sq / 8,
            col == sq % 8,
            forall|u: int|
                0 <= u < 8 ==> -2 <= (#[trigger] offsets@[u]).0 <= 2 && -2 <= offsets@[u].1 <= 2,
            neighbors@ == steps_upto(sq as int, offsets@, t as int),
            neighbors@.len() <= t,
            forall|u: int| 0 <= u < neighbors@.len() ==> #[trigger] neighbors@[u] < 64,
        decreases 8 - t,
    {
        let (dr, dc) = offsets[t];
        let nr = row + dr;
        let nc = col + dc;
        if nr >= 0 && nr < 8 && nc >= 0 && nc < 8 {
            neighbors.push((nr * 8 + nc) as usize);
        }
        t = t + 1;
    }
    neighbors
}

/// The squares around the square `sq`, rank by rank from the one below.
pub fn get_generic_neighbors(sq: usize) -> (neighbors: Vec<usize>)
    requires
        sq < 64,
    ensures
        neighbors@ == generic_neighbors(sq as int),
        neighbors@.len() <= 8,
        forall|t: int| 0 <= t < neighbors@.len() ==> #[trigger] neighbors@[t] < 64,
{
    let offsets: [Offset; 8] = [
        (-1, -1),
        (-1, 0),
        (-1, 1),
        (0, -1),
        (0, 1),
        (1, -1),
        (1, 0),
        (1, 1),
    ];
    assert(offsets@ =~= king_offsets());
    steps(sq, &offsets)
}

/// The squares a knight's jump away from the square `sq`.
pub fn get_knight_neighbors(sq: usize) -> (neighbors: Vec<usize>)
    requires
        sq < 64,
    ensures
        neighbors@ == knight_neighbors(sq as int),
        neighbors@.len() <= 8,
        forall|t: int| 0 <= t < neighbors@.len() ==> #[trigger] neighbors@[t] < 64,
{
    let offsets: [Offset; 8] = [
        (-2, -1),
        (-2, 1),
        (-1, -2),
        (-1, 2),
        (1, -2),
        (1, 2),
        (2, -1),
        (2, 1),
    ];
    assert(offsets@ =~= knight_offsets());
    steps(sq, &offsets)
}

/// The knight's neighbours of each of the 64 squares.
pub fn knight_adjacency() -> (table: Vec<Vec<usize>>)
    ensures
        table@.len() == 64,
        forall|sq: int| 0 <= sq < 64 ==> (#[trigger] table@[sq])@ == knight_neighbors(sq),
{
    let mut table: Vec<Vec<usize>> = Vec::with_capacity(64);
    let mut sq: usize = 0;
    while sq < 64
        invariant
            sq <= 64,
            table@.len() == sq,
            forall|s: int| 0 <= s < sq ==> (#[trigger] table@[s])@ == knight_neighbors(s),
        decreases 64 - sq,
    {
        table.push(get_knight_neighbors(sq));
        sq = sq + 1;
    }
    table
}

/// The set of the occupied squares of a position.
pub fn occupied_mask(position: &Position) -> (mask: u64)
    ensures
        mask == occupancy(position.squares@),
{
    let mut mask: u64 = 0;
    let mut sq: usize = 0;
    while sq < 64
        invariant
            sq <= 64,
            mask == occupancy_upto(position.squares@, sq as int),
        decreases 64 - sq,
    {
        if position.squares[sq].is_some() {
            mask = mask | (1u64 << (sq as u64));
        }
        sq = sq + 1;
    }
    mask
}

/// Adds to `neighbors` the squares whose bit is set in `mask`, in ascending
/// order.
fn push_squares(neighbors: &mut Vec<usize>, mask: u64)
    ensures
        final(neighbors)@ == old(neighbors)@ + squares_of(mask),
{
    let ghost before = neighbors@;
    let mut sq: usize = 0;
    while sq < 64
        invariant
            sq <= 64,
            neighbors@ == before + squares_upto(mask, sq as int),
        decreases 64 - sq,
    {
        if (mask >> (sq as u64)) & 1 == 1 {
            neighbors.push(sq);
            assert(neighbors@ =~= before + squares_upto(mask, sq as int + 1));
        }
        sq = sq + 1;
    }
}

/// The squares that a piece of the kind `piece_type` reaches from `sq` in one
/// step when the squares in `occupied` are occupied.
pub open spec fn dynamic_neighbors(sq: int, piece_type: Option<Piece>, occupied: u64) -> Seq<
    usize,
> {
    match piece_type {
        Some(Piece::Knight) => knight_neighbors(sq),
        Some(Piece::Rook) => generic_neighbors(sq) + squares_of(rook_moves_of(sq, occupied)),
        Some(Piece::Bishop) => generic_neighbors(sq) + squares_of(bishop_moves_of(sq, occupied)),
        Some(Piece::Queen) => generic_neighbors(sq) + squares_of(
            rook_moves_of(sq, occupied) | bishop_moves_of(sq, occupied),
        ),
        _ => generic_neighbors(sq),
    }
}

/// The squares that a piece of the kind `piece_type` reaches from `sq` in one
/// step: a knight the squares a jump away; a rook, bishop or queen the squares
/// around it and then those along its lines up to the first occupied square;
/// any other piece, or none, the squares around it.
pub fn get_dynamic_neighbors_static(
    sq: usize,
    piece_type: Option<Piece>,
    position: &Position,
) -> (neighbors: Vec<usize>)
    requires
        sq < 64,
    ensures
        neighbors@ == dynamic_neighbors(sq as int, piece_type, occupancy(position.squares@)),
{
    match piece_type {
        Some(Piece::Knight) => get_knight_neighbors(sq),
        Some(Piece::Rook) => {
            let mut neighbors = get_generic_neighbors(sq);
            let move_set = rook_moves(sq, occupied_mask(position));
            push_squares(&mut neighbors, move_set);
            neighbors
        },
        Some(Piece::Bishop) => {
            let mut neighbors = get_generic_neighbors(sq);
            let move_set = bishop_moves(sq, occupied_mask(position));
            push_squares(&mut neighbors, move_set);
            neighbors
        },
        Some(Piece::Queen) => {
            let mut neighbors = get_generic_neighbors(sq);
            let occupied = occupied_mask(position);
            let move_set = rook_moves(sq, occupied) | bishop_moves(sq, occupied);
            push_squares(&mut neighbors, move_set);
            neighbors
        },
        _ => get_generic_neighbors(sq),
    }
}

} // verus!
