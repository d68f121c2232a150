use aethelgard_x::material::{material_balance, material_score};
use aethelgard_x::neighbors::{get_dynamic_neighbors_static, occupied_mask};
use aethelgard_x::position::{Color, Piece, Position};
use aethelgard_x::vision::VisionEvaluator;
use cozy_chess::Board;

fn position_of(board: &Board) -> Position {
    let side = match board.side_to_move() {
        cozy_chess::Color::White => Color::White,
        cozy_chess::Color::Black => Color::Black,
    };
    let mut position = Position::empty(side);
    for sq in board.occupied() {
        let color = match board.color_on(sq).unwrap() {
            cozy_chess::Color::White => Color::White,
            cozy_chess::Color::Black => Color::Black,
        };
        let piece = match board.piece_on(sq).unwrap() {
            cozy_chess::Piece::Pawn => Piece::Pawn,
            cozy_chess::Piece::Knight => Piece::Knight,
            cozy_chess::Piece::Bishop => Piece::Bishop,
            cozy_chess::Piece::Rook => Piece::Rook,
            cozy_chess::Piece::Queen => Piece::Queen,
            cozy_chess::Piece::King => Piece::King,
        };
        position.put(sq as usize, color, piece);
    }
    position
}

#[test]
fn start_position_is_balanced() {
    let position = position_of(&Board::default());
    assert_eq!(occupied_mask(&position), Board::default().occupied().0);
    assert_eq!(material_score(&position, Color::White), 4000);
    assert_eq!(material_score(&position, Color::Black), 4000);
    assert_eq!(material_balance(&position), 0);
}

#[test]
fn rook_in_the_corner_of_the_start_position() {
    let position = position_of(&Board::default());
    // the squares around a1, then the first blockers on the rank and the file
    assert_eq!(
        get_dynamic_neighbors_static(0, Some(Piece::Rook), &position),
        vec![1, 8, 9, 1, 8]
    );
    assert_eq!(
        get_dynamic_neighbors_static(2, Some(Piece::Bishop), &position),
        vec![1, 3, 9, 10, 11, 9, 11]
    );
}

#[test]
fn vision_of_a_rook_ending() {
    let evaluator = VisionEvaluator::new();
    let board: Board = "3r2k1/8/8/8/8/8/8/3R2K1 w - - 0 1".parse().unwrap();
    let position = position_of(&board);
    // the white rook on d1: own king at distance 9 first, then the black rook
    // at distance 49 at opacity 0.2: 0.5 * 0 * 1.0 + 5.0 * 5 * 0.2
    assert_eq!(evaluator.piece_vision(&position, 3), 5_000);
    // the black rook on d8: its own king is an enemy of the side to move and
    // blocks the line at once
    assert_eq!(evaluator.piece_vision(&position, 59), 0);
    assert_eq!(evaluator.calculate_cga_vision(&position), 5_000);
}
