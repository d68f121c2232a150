use aethelgard_x::blade::{basis_product_logic, grade};
use aethelgard_x::cga::Multivector5D;
use aethelgard_x::dyadic::Dyadic;
use aethelgard_x::tables::{CayleyTable, ProductEngine};

fn mv(entries: &[(usize, i64)], shift: u32) -> Multivector5D {
    let mut lanes = [0i64; 32];
    for &(lane, value) in entries {
        lanes[lane] = value;
    }
    Multivector5D { lanes, shift }
}

fn sample(seed: i64) -> Multivector5D {
    let mut lanes = [0i64; 32];
    let mut x = seed;
    for lane in lanes.iter_mut() {
        x = (x * 1103 + 12345) % 2003;
        *lane = x - 1001;
    }
    Multivector5D { lanes, shift: (seed % 3) as u32 }
}

#[test]
fn product_rule_on_single_generators() {
    assert_eq!(basis_product_logic(1, 1), (1, 0));
    assert_eq!(basis_product_logic(8, 8), (1, 0));
    assert_eq!(basis_product_logic(16, 16), (-1, 0));
    assert_eq!(basis_product_logic(1, 2), (1, 3));
    assert_eq!(basis_product_logic(2, 1), (-1, 3));
    assert_eq!(basis_product_logic(0, 21), (1, 21));
    assert_eq!(basis_product_logic(21, 0), (1, 21));
}

#[test]
fn product_rule_on_blades() {
    // e12 e12 = -1, e123 e3 = e12, e3 e123 = e12, e-(e+ e-) = e+
    assert_eq!(basis_product_logic(3, 3), (-1, 0));
    assert_eq!(basis_product_logic(7, 4), (1, 3));
    assert_eq!(basis_product_logic(4, 7), (1, 3));
    assert_eq!(basis_product_logic(16, 24), (1, 8));
    assert_eq!(basis_product_logic(24, 16), (-1, 8));
    // the pseudoscalar squares to -1 in this signature
    assert_eq!(basis_product_logic(31, 31), (-1, 0));
}

#[test]
fn grade_counts_generators() {
    assert_eq!(grade(0), 0);
    assert_eq!(grade(1), 1);
    assert_eq!(grade(16), 1);
    assert_eq!(grade(3), 2);
    assert_eq!(grade(21), 3);
    assert_eq!(grade(30), 4);
    assert_eq!(grade(31), 5);
}

#[test]
fn cayley_table_holds_the_product_rule() {
    let table = CayleyTable::new();
    for a in 0..32 {
        for b in 0..32 {
            assert_eq!(table.entry(a, b), basis_product_logic(a, b));
            assert_eq!(table.entry(a, b).1, a ^ b);
        }
    }
}

#[test]
fn flattened_table_is_consistent() {
    let engine = ProductEngine::new();
    assert_eq!(engine.len(), 1024);
    let mut seen = [[false; 32]; 32];
    for k in 0..32 {
        for slot in 0..32 {
            let (sign, a, b) = engine.triple(32 * k + slot);
            assert_eq!(engine.cayley().entry(a, b), (sign, k));
            assert!(!seen[a][b]);
            seen[a][b] = true;
        }
    }
    for a in 0..32 {
        for b in 0..32 {
            assert!(seen[a][b]);
        }
    }
}

#[test]
fn basis_vectors_square_to_their_metric() {
    let engine = ProductEngine::new();
    let one = Multivector5D::new_scalar(Dyadic::from_int(1));
    let minus_one = Multivector5D::new_scalar(Dyadic::from_int(-1));
    for i in 1..=4 {
        let e = Multivector5D::e(i);
        let sq = e.geometric_product(&e, &engine);
        assert_eq!(sq.lanes, one.lanes);
        assert_eq!(sq.shift, 0);
    }
    let em = Multivector5D::e(5);
    let sq = em.geometric_product(&em, &engine);
    assert_eq!(sq.lanes, minus_one.lanes);
    assert_eq!(sq.shift, 0);
}

#[test]
fn basis_vector_outside_the_generators_is_zero() {
    assert_eq!(Multivector5D::e(0).lanes, [0i64; 32]);
    assert_eq!(Multivector5D::e(6).lanes, [0i64; 32]);
    assert_eq!(Multivector5D::e(31).lanes, [0i64; 32]);
    assert_eq!(Multivector5D::e(3).lanes, mv(&[(4, 1)], 0).lanes);
    assert_eq!(Multivector5D::e(4).lanes, mv(&[(8, 1)], 0).lanes);
    assert_eq!(Multivector5D::e(5).lanes, mv(&[(16, 1)], 0).lanes);
}

#[test]
fn metric_signature() {
    let one = Dyadic::new(1, 0);
    for i in 1..=4 {
        let e = Multivector5D::e(i);
        assert_eq!(e.inner_product(&e), one);
    }
    let em = Multivector5D::e(5);
    assert_eq!(em.inner_product(&em), Dyadic::new(-1, 0));
    assert_eq!(Multivector5D::e(1).inner_product(&Multivector5D::e(2)), Dyadic::new(0, 0));
}

#[test]
fn null_vector_pairing() {
    let n_o = Multivector5D::n_o();
    let n_inf = Multivector5D::n_inf();
    let pairing = n_o.inner_product(&n_inf);
    assert_eq!(pairing, Dyadic::new(-2, 1));
    assert!(pairing.same_value(&Dyadic::from_int(-1)));
    assert!(n_inf.inner_product(&n_inf).same_value(&Dyadic::from_int(0)));
    assert!(n_o.inner_product(&n_o).same_value(&Dyadic::from_int(0)));
    assert!(!pairing.same_value(&Dyadic::from_int(1)));
}

#[test]
fn wedge_of_basis_vectors() {
    let engine = ProductEngine::new();
    let e1 = Multivector5D::e(1);
    let e2 = Multivector5D::e(2);
    let e12 = e1.wedge(&e2, &engine);
    assert_eq!(e12.lanes, mv(&[(3, 1)], 0).lanes);
    let e21 = e2.wedge(&e1, &engine);
    assert_eq!(e21.lanes, mv(&[(3, -1)], 0).lanes);
    assert_eq!(e1.wedge(&e1, &engine).lanes, Multivector5D::zero().lanes);
}

#[test]
fn wedge_drops_the_contraction() {
    let engine = ProductEngine::new();
    // (e1 + e2)(e1 + 2 e2) = 3 + e12, and the wedge keeps e12 only
    let a = mv(&[(1, 1), (2, 1)], 0);
    let b = mv(&[(1, 1), (2, 2)], 0);
    assert_eq!(a.geometric_product(&b, &engine).lanes, mv(&[(0, 3), (3, 1)], 0).lanes);
    assert_eq!(a.wedge(&b, &engine).lanes, mv(&[(3, 1)], 0).lanes);
}

#[test]
fn product_is_associative() {
    let engine = ProductEngine::new();
    for seed in 1..6 {
        let a = sample(seed);
        let b = sample(seed + 10);
        let c = sample(seed + 20);
        let left = a.geometric_product(&b, &engine).geometric_product(&c, &engine);
        let right = a.geometric_product(&b.geometric_product(&c, &engine), &engine);
        assert_eq!(left.lanes, right.lanes);
        assert_eq!(left.shift, right.shift);
    }
}

#[test]
fn product_is_not_commutative() {
    let engine = ProductEngine::new();
    let e1 = Multivector5D::e(1);
    let e2 = Multivector5D::e(2);
    let ab = e1.geometric_product(&e2, &engine);
    let ba = e2.geometric_product(&e1, &engine);
    assert_eq!(ab.lanes[3], 1);
    assert_eq!(ba.lanes[3], -1);
}

#[test]
fn reversion_is_an_involution() {
    for seed in 1..6 {
        let a = sample(seed);
        let back = a.reverse().reverse();
        assert_eq!(back.lanes, a.lanes);
        assert_eq!(back.shift, a.shift);
    }
}

#[test]
fn reversion_negates_grades_two_and_three() {
    let mut lanes = [0i64; 32];
    for (i, lane) in lanes.iter_mut().enumerate() {
        *lane = i as i64 + 1;
    }
    let a = Multivector5D { lanes, shift: 2 };
    let r = a.reverse();
    assert_eq!(r.shift, 2);
    for i in 0..32usize {
        let k = i.count_ones();
        let expected = if k == 2 || k == 3 { -(i as i64 + 1) } else { i as i64 + 1 };
        assert_eq!(r.lanes[i], expected);
    }
}

#[test]
fn reversion_turns_products_around() {
    let engine = ProductEngine::new();
    for seed in 1..6 {
        let a = sample(seed);
        let b = sample(seed + 7);
        let left = a.geometric_product(&b, &engine).reverse();
        let right = b.reverse().geometric_product(&a.reverse(), &engine);
        assert_eq!(left.lanes, right.lanes);
        assert_eq!(left.shift, right.shift);
    }
}

#[test]
fn sums_align_denominators() {
    // 1/2 e1 + 3 e2 = (e1 + 6 e2) / 2
    let a = mv(&[(1, 1)], 1);
    let b = mv(&[(2, 3)], 0);
    let sum = a.add(&b);
    assert_eq!(sum.shift, 1);
    assert_eq!(sum.lanes, mv(&[(1, 1), (2, 6)], 1).lanes);
    let diff = b.sub(&a);
    assert_eq!(diff.shift, 1);
    assert_eq!(diff.lanes, mv(&[(1, -1), (2, 6)], 1).lanes);
}

#[test]
fn scaling_multiplies_every_lane() {
    let a = mv(&[(0, 2), (5, -3), (31, 7)], 1);
    let r = a.scale(Dyadic::new(-3, 2));
    assert_eq!(r.shift, 3);
    assert_eq!(r.lanes, mv(&[(0, -6), (5, 9), (31, -21)], 3).lanes);
}

#[test]
fn dual_multiplies_by_the_inverse_pseudoscalar() {
    let engine = ProductEngine::new();
    let one = Multivector5D::new_scalar(Dyadic::from_int(1));
    // 1 * (-I) = -I
    assert_eq!(one.dual(&engine).lanes, mv(&[(31, -1)], 0).lanes);
    // I * (-I) = -(I I) = 1
    let pseudoscalar = mv(&[(31, 1)], 0);
    assert_eq!(pseudoscalar.dual(&engine).lanes, mv(&[(0, 1)], 0).lanes);
    // e1 (-I) = -e1 e1 e2 e3 e+ e- = -e2 e3 e+ e-
    assert_eq!(Multivector5D::e(1).dual(&engine).lanes, mv(&[(30, -1)], 0).lanes);
}

#[test]
fn same_value_ignores_the_denominator() {
    let a = mv(&[(1, 1), (2, -3)], 0);
    let b = mv(&[(1, 4), (2, -12)], 2);
    let c = mv(&[(1, 4), (2, -11)], 2);
    assert!(a.same_value(&b));
    assert!(b.same_value(&a));
    assert!(!a.same_value(&c));
}

#[test]
fn wedge_of_dependent_vectors_is_zero() {
    let engine = ProductEngine::new();
    let a = mv(&[(1, 3), (2, -2), (8, 5), (16, 1)], 1);
    let b = a.scale(Dyadic::new(-7, 2));
    assert_eq!(a.wedge(&a, &engine).lanes, [0i64; 32]);
    assert_eq!(a.wedge(&b, &engine).lanes, [0i64; 32]);
    assert_eq!(b.wedge(&a, &engine).lanes, [0i64; 32]);
}

#[test]
fn wedge_of_vectors_is_antisymmetric() {
    let engine = ProductEngine::new();
    let a = mv(&[(1, 3), (2, -2), (4, 9), (16, 1)], 0);
    let b = mv(&[(1, -1), (4, 4), (8, 5), (16, 2)], 0);
    let ab = a.wedge(&b, &engine);
    let ba = b.wedge(&a, &engine);
    for lane in 0..32 {
        assert_eq!(ab.lanes[lane], -ba.lanes[lane]);
    }
    assert_eq!(ab.lanes[1 | 4], 3 * 4 + 9);
}

#[test]
fn wedge_is_associative_on_basis_vectors() {
    let engine = ProductEngine::new();
    let e1 = Multivector5D::e(1);
    let e2 = Multivector5D::e(2);
    let ep = Multivector5D::e(4);
    let left = e1.wedge(&e2, &engine).wedge(&ep, &engine);
    let right = e1.wedge(&e2.wedge(&ep, &engine), &engine);
    assert_eq!(left.lanes, right.lanes);
    assert_eq!(left.lanes, mv(&[(1 | 2 | 8, 1)], 0).lanes);
}
