use aethelgard_x::material::{
    get_piece_index, material_balance, material_score, piece_centipawns, snake_path,
};
use aethelgard_x::neighbors::{
    get_dynamic_neighbors_static, get_generic_neighbors, get_knight_neighbors, knight_adjacency,
    occupied_mask,
};
use aethelgard_x::position::{Color, Piece, Position};
use aethelgard_x::search::{
    no_moves_score, probe_verdict, quiescence_step, stand_pat_bound, winning_verdict,
    SearchWindow, TacticalFeedback,
};

#[test]
fn neighbors_of_a_corner_an_edge_and_the_middle() {
    assert_eq!(get_generic_neighbors(0), vec![1, 8, 9]);
    assert_eq!(get_generic_neighbors(63), vec![54, 55, 62]);
    assert_eq!(get_generic_neighbors(4), vec![3, 5, 11, 12, 13]);
    assert_eq!(get_generic_neighbors(27), vec![18, 19, 20, 26, 28, 34, 35, 36]);
}

#[test]
fn knight_jumps() {
    assert_eq!(get_knight_neighbors(0), vec![10, 17]);
    assert_eq!(get_knight_neighbors(27), vec![10, 12, 17, 21, 33, 37, 42, 44]);
    assert_eq!(get_knight_neighbors(63), vec![46, 53]);
    let table = knight_adjacency();
    assert_eq!(table.len(), 64);
    for sq in 0..64 {
        assert_eq!(table[sq], get_knight_neighbors(sq));
    }
}

#[test]
fn occupancy_has_one_bit_for_each_piece() {
    let mut position = Position::empty(Color::White);
    assert_eq!(occupied_mask(&position), 0);
    position.put(0, Color::White, Piece::Rook);
    position.put(9, Color::Black, Piece::Pawn);
    position.put(63, Color::Black, Piece::King);
    assert_eq!(occupied_mask(&position), 1 | (1 << 9) | (1 << 63));
}

#[test]
fn rook_reaches_along_rank_and_file_until_blocked() {
    let mut position = Position::empty(Color::White);
    let open = get_dynamic_neighbors_static(0, Some(Piece::Rook), &position);
    assert_eq!(open, vec![1, 8, 9, 1, 2, 3, 4, 5, 6, 7, 8, 16, 24, 32, 40, 48, 56]);
    position.put(3, Color::Black, Piece::Pawn);
    position.put(16, Color::White, Piece::Pawn);
    let blocked = get_dynamic_neighbors_static(0, Some(Piece::Rook), &position);
    assert_eq!(blocked, vec![1, 8, 9, 1, 2, 3, 8, 16]);
}

#[test]
fn bishop_and_queen_reach_along_their_lines() {
    let mut position = Position::empty(Color::White);
    position.put(18, Color::Black, Piece::Pawn);
    let bishop = get_dynamic_neighbors_static(0, Some(Piece::Bishop), &position);
    assert_eq!(bishop, vec![1, 8, 9, 9, 18]);
    let queen = get_dynamic_neighbors_static(0, Some(Piece::Queen), &position);
    assert_eq!(
        queen,
        vec![1, 8, 9, 1, 2, 3, 4, 5, 6, 7, 8, 9, 16, 18, 24, 32, 40, 48, 56]
    );
}

#[test]
fn other_pieces_step_to_the_squares_around_them() {
    let position = Position::empty(Color::White);
    assert_eq!(get_dynamic_neighbors_static(0, None, &position), vec![1, 8, 9]);
    assert_eq!(get_dynamic_neighbors_static(0, Some(Piece::King), &position), vec![1, 8, 9]);
    assert_eq!(get_dynamic_neighbors_static(0, Some(Piece::Pawn), &position), vec![1, 8, 9]);
    assert_eq!(get_dynamic_neighbors_static(0, Some(Piece::Knight), &position), vec![10, 17]);
}

#[test]
fn material_counts_each_side() {
    let mut position = Position::empty(Color::Black);
    position.put(0, Color::White, Piece::Rook);
    position.put(1, Color::White, Piece::Knight);
    position.put(4, Color::White, Piece::King);
    position.put(8, Color::White, Piece::Pawn);
    position.put(9, Color::White, Piece::Pawn);
    position.put(59, Color::Black, Piece::Queen);
    position.put(58, Color::Black, Piece::Bishop);
    position.put(60, Color::Black, Piece::King);
    assert_eq!(material_score(&position, Color::White), 500 + 320 + 200);
    assert_eq!(material_score(&position, Color::Black), 900 + 330);
    assert_eq!(material_balance(&position), 1230 - 1020);
    position.side_to_move = Color::White;
    assert_eq!(material_balance(&position), 1020 - 1230);
    assert_eq!(piece_centipawns(Piece::King), 0);
    assert_eq!(piece_centipawns(Piece::Pawn), 100);
}

#[test]
fn piece_indices() {
    let mut position = Position::empty(Color::White);
    assert_eq!(get_piece_index(&position, 5), 0);
    let kinds = [
        Piece::Pawn,
        Piece::Knight,
        Piece::Bishop,
        Piece::Rook,
        Piece::Queen,
        Piece::King,
    ];
    for (i, kind) in kinds.iter().enumerate() {
        position.put(i, Color::White, *kind);
        position.put(8 + i, Color::Black, *kind);
    }
    for i in 0..6 {
        assert_eq!(get_piece_index(&position, i), 1 + i);
        assert_eq!(get_piece_index(&position, 8 + i), 7 + i);
    }
}

#[test]
fn snake_path_turns_at_the_end_of_each_rank() {
    let expected: [usize; 64] = [
        0, 1, 2, 3, 4, 5, 6, 7, 15, 14, 13, 12, 11, 10, 9, 8, 16, 17, 18, 19, 20, 21, 22, 23, 31,
        30, 29, 28, 27, 26, 25, 24, 32, 33, 34, 35, 36, 37, 38, 39, 47, 46, 45, 44, 43, 42, 41, 40,
        48, 49, 50, 51, 52, 53, 54, 55, 63, 62, 61, 60, 59, 58, 57, 56,
    ];
    assert_eq!(snake_path(), expected.to_vec());
}

#[test]
fn window_absorbs_scores() {
    let mut window = SearchWindow::open(-100, 100);
    assert_eq!(window.best_score, -30_000);
    assert_eq!(window.best_move, None);
    assert_eq!(window.child_bounds(), (-100, 100));
    // the child reports 50: -50 for us, above alpha
    assert!(!window.absorb(0, 50));
    assert_eq!(window.alpha, -50);
    assert_eq!(window.best_move, Some(0));
    assert_eq!(window.child_bounds(), (-100, 50));
    // the child reports 70: -70 for us, no gain
    assert!(!window.absorb(1, 70));
    assert_eq!(window.result(), (-50, Some(0)));
    // the child reports -100: 100 for us, which reaches beta
    assert!(window.absorb(2, -100));
    assert_eq!(window.cutoff_result(2), (100, Some(2)));
    assert_eq!(window.alpha, -50);
}

#[test]
fn nodes_without_moves() {
    assert_eq!(no_moves_score(true), 0);
    assert_eq!(no_moves_score(false), -20_000);
}

#[test]
fn quiescence_bounds() {
    assert_eq!(stand_pat_bound(120, -50, 100), Err(100));
    assert_eq!(stand_pat_bound(100, -50, 100), Err(100));
    assert_eq!(stand_pat_bound(20, -50, 100), Ok(20));
    assert_eq!(stand_pat_bound(-80, -50, 100), Ok(-50));
    assert_eq!(quiescence_step(-120, -50, 100), Err(100));
    assert_eq!(quiescence_step(-20, -50, 100), Ok(20));
    assert_eq!(quiescence_step(80, -50, 100), Ok(-50));
}

#[test]
fn probe_verdicts() {
    assert_eq!(
        probe_verdict(49, Some((12, 28)), true),
        TacticalFeedback { is_safe: true, danger_squares: vec![] }
    );
    assert_eq!(
        probe_verdict(50, Some((12, 28)), true),
        TacticalFeedback { is_safe: false, danger_squares: vec![(28, 1000), (12, 500)] }
    );
    assert_eq!(
        probe_verdict(300, Some((12, 28)), false),
        TacticalFeedback { is_safe: false, danger_squares: vec![(28, 1000)] }
    );
    assert_eq!(
        probe_verdict(300, None, false),
        TacticalFeedback { is_safe: false, danger_squares: vec![] }
    );
    assert_eq!(winning_verdict(), TacticalFeedback { is_safe: true, danger_squares: vec![] });
}
