use aethelgard_x::dyadic::{pow2_i128, pow2_u128, same_ratio, scale_up, scaled_equals, Dyadic};

#[test]
fn powers_of_two() {
    assert_eq!(pow2_i128(0), 1);
    assert_eq!(pow2_i128(10), 1024);
    assert_eq!(pow2_i128(64), 1i128 << 64);
    assert_eq!(pow2_u128(96), 1u128 << 96);
    assert_eq!(scale_up(-3, 4), -48);
    assert_eq!(scale_up(0, 4000), 0);
}

#[test]
fn dyadic_arithmetic() {
    let a = Dyadic::new(3, 1); // 3/2
    let b = Dyadic::new(-5, 3); // -5/8
    assert_eq!(a.times(&b), Dyadic::new(-15, 4));
    assert_eq!(a.plus(&b), Dyadic::new(7, 3));
    assert_eq!(b.plus(&a), Dyadic::new(7, 3));
    assert_eq!(a.half(), Dyadic::new(3, 2));
    assert_eq!(a.negated(), Dyadic::new(-3, 1));
    assert_eq!(Dyadic::from_int(7), Dyadic::new(7, 0));
}

#[test]
fn dyadic_comparisons() {
    assert!(Dyadic::new(6, 2).same_value(&Dyadic::new(3, 1)));
    assert!(Dyadic::new(3, 1).same_value(&Dyadic::new(6, 2)));
    assert!(!Dyadic::new(3, 1).same_value(&Dyadic::new(3, 2)));
    assert!(Dyadic::new(0, 0).same_value(&Dyadic::new(0, 4_000_000)));
    assert!(!Dyadic::new(1, 0).same_value(&Dyadic::new(1, 4_000_000)));
    assert!(same_ratio(-4, 2, -1, 0));
    assert!(scaled_equals(5, 3, 40));
    assert!(!scaled_equals(5, 100, 40));
}

#[test]
fn threshold_test() {
    // 1/128 < 1/100 <= 1/64
    assert!(Dyadic::new(1, 7).abs_below(1, 100));
    assert!(Dyadic::new(-1, 7).abs_below(1, 100));
    assert!(!Dyadic::new(1, 6).abs_below(1, 100));
    assert!(!Dyadic::new(-1, 6).abs_below(1, 100));
    assert!(Dyadic::new(0, 0).abs_below(1, 100));
    assert!(!Dyadic::new(0, 0).abs_below(0, 100));
    assert!(Dyadic::new(i64::MIN, 200).abs_below(1, 100));
    assert!(!Dyadic::new(1, 0).abs_below(1, 1));
    assert!(Dyadic::new(1, 1).abs_below(1, 1));
}
