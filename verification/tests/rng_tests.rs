use zikzakzoo_core::SimpleRNG;

#[test]
fn rng_state_starts_at_seed() {
    let rng = SimpleRNG::new(77);
    assert_eq!(rng.state, 77);
}

#[test]
fn rng_next_exact_values() {
    let mut rng = SimpleRNG::new(42);
    assert_eq!(rng.next(), 9039304369631583587);
    assert_eq!(rng.next(), 8647191391818483560);
    assert_eq!(rng.next(), 10334312345110439241);
    assert_eq!(rng.state, 10334312345110439241);
}

#[test]
fn rng_determinism() {
    let mut a = SimpleRNG::new(123456789);
    let mut b = SimpleRNG::new(123456789);
    for _ in 0..32 {
        assert_eq!(a.next(), b.next());
    }
    let mut c = SimpleRNG::new(7);
    let mut d = SimpleRNG::new(7);
    for _ in 0..16 {
        assert_eq!(c.rand_range(0, 8), d.rand_range(0, 8));
    }
    assert_eq!(c.state, d.state);
}

#[test]
fn rng_rand_range_stays_in_bounds() {
    let mut rng = SimpleRNG::new(99);
    for _ in 0..50 {
        let v = rng.rand_range(2, 5);
        assert!(v >= 2 && v <= 5);
    }
    let mut one = SimpleRNG::new(3);
    assert_eq!(one.rand_range(6, 6), 6);
}
