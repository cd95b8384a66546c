use pyrite::level::generator::java_rand::JavaRand as LegacyRand;
use pyrite::rand::java::JavaRand;
use pyrite::rand::primitives::{Bound, double_bits, float_bits};

#[test]
fn first_ints_for_seed_zero() {
    let mut rand = JavaRand::new(0);
    assert_eq!(rand.random::<i32>(), -1155484576);
    assert_eq!(rand.random::<i32>(), -723955400);
}

#[test]
fn bounded_draws_for_seed_42() {
    let mut rand = JavaRand::new(42);
    let drawn: Vec<i32> = (0..5).map(|_| rand.random_with::<i32>(Bound::new(10))).collect();
    assert_eq!(drawn, vec![0, 3, 8, 4, 0]);
}

#[test]
fn power_of_two_bound_draws_for_seed_42() {
    let mut rand = JavaRand::new(42);
    let drawn: Vec<i32> = (0..5).map(|_| rand.random_with::<i32>(Bound::new(16))).collect();
    assert_eq!(drawn, vec![11, 0, 10, 0, 4]);
}

#[test]
fn bounded_draws_stay_in_range() {
    let mut rand = JavaRand::new(-77);
    for bound in 1..200 {
        let v = rand.random_with::<i32>(Bound::new(bound));
        assert!(0 <= v && v < bound);
    }
}

#[test]
fn non_positive_bound_draws_a_full_int() {
    let mut a = JavaRand::new(3);
    let mut b = JavaRand::new(3);
    assert_eq!(a.random_with::<i32>(Bound::new(0)), b.random::<i32>());
    assert_eq!(a.random_with::<i32>(Bound::new(-5)), b.random::<i32>());
}

#[test]
fn long_for_seed_zero() {
    let mut rand = JavaRand::new(0);
    assert_eq!(rand.random::<i64>(), -4962768465676381896);
}

#[test]
fn booleans_for_seed_123() {
    let mut rand = JavaRand::new(123);
    let drawn: Vec<bool> = (0..8).map(|_| rand.random::<bool>()).collect();
    assert_eq!(drawn, vec![true, false, true, false, false, true, true, false]);
}

#[test]
fn double_bits_for_seed_7() {
    let mut rand = JavaRand::new(7);
    let bits = double_bits(&mut rand);
    assert_eq!(bits, 6581551867083168);
    let as_double = bits as f64 / (1i64 << 53) as f64;
    assert!((0.0..1.0).contains(&as_double));
}

#[test]
fn float_bits_for_seed_99() {
    let mut rand = JavaRand::new(99);
    assert_eq!(float_bits(&mut rand), 12120826);
}

#[test]
fn seed_is_scrambled_into_state() {
    let rand = JavaRand::new(0);
    assert_eq!(rand.get_seed(), 25214903917);
}

#[test]
fn top_bits_for_seed_12345() {
    let mut rand = JavaRand::new(12345);
    assert_eq!(rand.bits::<48>(), 101838520498639);
    assert_eq!(rand.get_seed(), 101838520498639);
}

#[test]
fn set_seed_restarts_the_sequence() {
    let mut used = JavaRand::new(9);
    for _ in 0..17 {
        used.random::<i32>();
    }
    used.set_seed(42);
    let mut fresh = JavaRand::new(42);
    for _ in 0..10 {
        assert_eq!(used.random::<i32>(), fresh.random::<i32>());
    }
}

#[test]
fn clone_continues_alike() {
    let mut a = JavaRand::new(1234);
    a.random::<i64>();
    let mut b = a.clone();
    for _ in 0..10 {
        assert_eq!(a.random_with::<i32>(Bound::new(7)), b.random_with::<i32>(Bound::new(7)));
    }
}

#[test]
fn legacy_generator_matches_java() {
    let mut rand = LegacyRand::new(0);
    assert_eq!(rand.next_i32(), -1155484576);
    let mut rand = LegacyRand::new(42);
    let drawn: Vec<i32> = (0..5).map(|_| rand.next_i32_bounded(10)).collect();
    assert_eq!(drawn, vec![0, 3, 8, 4, 0]);
    let mut rand = LegacyRand::new(0);
    // Java's nextLong: the signed halves, the first shifted up, added.
    assert_eq!(rand.next_i64(), -4962768465676381896);
    let mut rand = LegacyRand::new(123);
    assert!(rand.next_bool());
    assert!(!rand.next_bool());
    let mut rand = LegacyRand::new(7);
    assert_eq!(rand.next_double_bits(), 6581551867083168);
    let mut rand = LegacyRand::new(12345);
    assert_eq!(rand.next(48), 101838520498639);
}

#[test]
fn legacy_set_seed_restarts() {
    let mut rand = LegacyRand::new(1);
    rand.next_i32();
    rand.set_seed(0);
    assert_eq!(rand.get_seed(), 25214903917);
    assert_eq!(rand.next_i32(), -1155484576);
}
