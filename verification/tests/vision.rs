use aethelgard_x::cga::Multivector5D;
use aethelgard_x::position::{Color, Piece, Position};
use aethelgard_x::targets::sort_by_distance;
use aethelgard_x::vision::{squared_distance, value_of, VisionEvaluator};

fn two_rooks(side_to_move: Color) -> Position {
    let mut position = Position::empty(side_to_move);
    position.put(3, Color::White, Piece::Rook);
    position.put(59, Color::Black, Piece::Rook);
    position
}

#[test]
fn piece_values() {
    assert_eq!(value_of(Piece::Pawn), 1);
    assert_eq!(value_of(Piece::Knight), 3);
    assert_eq!(value_of(Piece::Bishop), 3);
    assert_eq!(value_of(Piece::Rook), 5);
    assert_eq!(value_of(Piece::Queen), 9);
    assert_eq!(value_of(Piece::King), 0);
}

#[test]
fn distances_on_the_board() {
    assert_eq!(squared_distance(3, 59), 49);
    assert_eq!(squared_distance(0, 63), 98);
    assert_eq!(squared_distance(27, 27), 0);
    assert_eq!(squared_distance(27, 36), 2);
}

#[test]
fn sorting_is_stable() {
    let found = vec![(4, 10), (1, 11), (4, 12), (0, 13), (1, 14), (4, 15)];
    let sorted = sort_by_distance(&found);
    assert_eq!(sorted, vec![(0, 13), (1, 11), (1, 14), (4, 10), (4, 12), (4, 15)]);
    assert_eq!(sort_by_distance(&Vec::new()), Vec::new());
}

#[test]
fn white_rook_sees_black_rook_at_full_opacity() {
    let evaluator = VisionEvaluator::new();
    let position = two_rooks(Color::White);
    // 5.0 * 5 * 1.0 = 25.0, in thousandths
    assert_eq!(evaluator.piece_vision(&position, 3), 25_000);
    assert_eq!(evaluator.piece_vision(&position, 3) as f64 / 1000.0, 25.0);
    // the black rook sees a piece of the side to move: -0.5 * 5 * 1.0
    assert_eq!(evaluator.piece_vision(&position, 59), -2_500);
    assert_eq!(evaluator.calculate_cga_vision(&position), 22_500);
}

#[test]
fn black_to_move_mirrors_the_score() {
    let evaluator = VisionEvaluator::new();
    let position = two_rooks(Color::Black);
    assert_eq!(evaluator.piece_vision(&position, 59), 25_000);
    assert_eq!(evaluator.piece_vision(&position, 3), -2_500);
    assert_eq!(evaluator.calculate_cga_vision(&position), 22_500);
}

#[test]
fn empty_board_and_lone_piece_score_nothing() {
    let evaluator = VisionEvaluator::new();
    let mut position = Position::empty(Color::White);
    assert_eq!(evaluator.calculate_cga_vision(&position), 0);
    position.put(27, Color::White, Piece::Queen);
    assert_eq!(evaluator.calculate_cga_vision(&position), 0);
}

#[test]
fn pieces_that_do_not_slide_see_nothing() {
    let evaluator = VisionEvaluator::new();
    let mut position = Position::empty(Color::White);
    position.put(0, Color::White, Piece::Knight);
    position.put(1, Color::White, Piece::King);
    position.put(2, Color::White, Piece::Pawn);
    position.put(10, Color::Black, Piece::Queen);
    assert_eq!(evaluator.piece_vision(&position, 0), 0);
    assert_eq!(evaluator.piece_vision(&position, 1), 0);
    assert_eq!(evaluator.piece_vision(&position, 2), 0);
    assert_eq!(evaluator.piece_vision(&position, 5), 0);
    assert!(evaluator.blade_on(Piece::Knight, 0).is_none());
    assert!(evaluator.blade_on(Piece::Bishop, 0).is_some());
}

#[test]
fn friend_dims_the_line_and_enemy_blocks_it() {
    let evaluator = VisionEvaluator::new();
    let mut position = Position::empty(Color::White);
    position.put(0, Color::White, Piece::Rook);
    position.put(1, Color::White, Piece::Pawn); // distance 1
    position.put(16, Color::Black, Piece::Queen); // distance 4
    position.put(24, Color::Black, Piece::Rook); // distance 9, behind the queen
    // friend pawn: 0.5 * 1 * 1.0; then the queen at opacity 0.2: 5.0 * 9 * 0.2
    assert_eq!(evaluator.piece_vision(&position, 0), 500 + 9_000);
}

#[test]
fn second_friend_ends_the_walk() {
    let evaluator = VisionEvaluator::new();
    let mut position = Position::empty(Color::White);
    position.put(0, Color::White, Piece::Rook);
    position.put(1, Color::White, Piece::Knight); // distance 1
    position.put(2, Color::White, Piece::Bishop); // distance 4
    position.put(3, Color::Black, Piece::Queen); // distance 9: opacity 0.04 is below the cutoff
    // 0.5 * 3 * 1.0 + 0.5 * 3 * 0.2
    assert_eq!(evaluator.piece_vision(&position, 0), 1_500 + 300);
}

#[test]
fn targets_are_found_in_square_order_with_distances() {
    let evaluator = VisionEvaluator::new();
    let mut position = Position::empty(Color::White);
    position.put(27, Color::White, Piece::Rook);
    position.put(0, Color::Black, Piece::Pawn);
    position.put(28, Color::Black, Piece::Pawn);
    position.put(63, Color::Black, Piece::Pawn);
    let blade = evaluator.blade_on(Piece::Rook, 27).unwrap();
    let found = evaluator.find_targets(&position, &blade, 27);
    assert_eq!(found, vec![(18, 0), (1, 28), (32, 63)]);
    assert!(evaluator.is_incident(&blade, 28));
    let sorted = sort_by_distance(&found);
    assert_eq!(sorted, vec![(1, 28), (18, 0), (32, 63)]);
    // the nearest pawn is an enemy and blocks the line
    assert_eq!(evaluator.walk(&position, Color::White, &sorted), 5_000);
    assert_eq!(evaluator.walk(&position, Color::Black, &sorted), -5_000);
}

#[test]
fn position_queries() {
    let mut position = Position::empty(Color::Black);
    assert_eq!(position.side_to_move, Color::Black);
    assert_eq!(position.piece_on(12), None);
    assert_eq!(position.color_on(12), None);
    position.put(12, Color::White, Piece::Bishop);
    assert_eq!(position.piece_on(12), Some(Piece::Bishop));
    assert_eq!(position.color_on(12), Some(Color::White));
    assert_eq!(Color::White.opposite(), Color::Black);
    assert_eq!(Color::Black.opposite(), Color::White);
}

#[test]
fn king_counts_nothing_but_still_stands_in_the_line() {
    let evaluator = VisionEvaluator::new();
    let mut position = Position::empty(Color::White);
    position.put(0, Color::White, Piece::Rook);
    position.put(1, Color::Black, Piece::King);
    position.put(2, Color::Black, Piece::Queen);
    // the enemy king is worth 0 here and blocks the line to the queen
    assert_eq!(evaluator.piece_vision(&position, 0), 0);
    position.put(1, Color::White, Piece::King);
    // the own king is worth 0 and dims the line: 5.0 * 9 * 0.2
    assert_eq!(evaluator.piece_vision(&position, 0), 9_000);
}

#[test]
fn bishop_and_queen_look_at_every_other_piece() {
    let evaluator = VisionEvaluator::new();
    let mut position = Position::empty(Color::White);
    position.put(0, Color::White, Piece::Bishop);
    position.put(7, Color::Black, Piece::Knight);
    // the knight is not on a diagonal of the bishop, and is seen all the same
    assert_eq!(evaluator.piece_vision(&position, 0), 15_000);
    position.put(0, Color::White, Piece::Queen);
    assert_eq!(evaluator.piece_vision(&position, 0), 15_000);
    assert_eq!(evaluator.calculate_cga_vision(&position), 15_000);
}

#[test]
fn targets_at_the_same_distance_keep_the_order_of_their_squares() {
    let evaluator = VisionEvaluator::new();
    let mut position = Position::empty(Color::White);
    position.put(27, Color::White, Piece::Rook);
    position.put(26, Color::White, Piece::Pawn); // distance 1
    position.put(28, Color::White, Piece::Knight); // distance 1
    position.put(19, Color::Black, Piece::Queen); // distance 1
    position.put(35, Color::Black, Piece::Queen); // distance 1
    // squares 19, 26 in this order: the queen on 19 comes first and blocks
    assert_eq!(evaluator.piece_vision(&position, 27), 45_000);
    position.squares[19] = None;
    // now the pawn on 26, then the knight on 28, then the walk is over
    assert_eq!(evaluator.piece_vision(&position, 27), 500 + 300);
}

#[test]
fn incidence_test_on_a_vector() {
    // The inner product of e1 with the point of (x, y) is x, so only the
    // squares of the first file pass the test against e1.
    let evaluator = VisionEvaluator::new();
    let e1 = Multivector5D::e(1);
    for sq in 0..64 {
        assert_eq!(evaluator.is_incident(&e1, sq), sq % 8 == 0);
    }
    let mut position = Position::empty(Color::White);
    position.put(8, Color::Black, Piece::Pawn);
    position.put(9, Color::Black, Piece::Pawn);
    position.put(48, Color::Black, Piece::Rook);
    assert_eq!(evaluator.find_targets(&position, &e1, 0), vec![(1, 8), (36, 48)]);
    assert_eq!(evaluator.find_targets(&position, &e1, 8), vec![(25, 48)]);
}
