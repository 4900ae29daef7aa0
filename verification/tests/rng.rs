use rustsynth::rng::Rng;

#[test]
fn deterministic() {
    let mut r1 = Rng::new(42);
    let mut r2 = Rng::new(42);
    assert_eq!(r1.next_u64(), r2.next_u64());
}

#[test]
fn xorshift_first_value_from_one() {
    let mut r = Rng::new(1);
    // 1 ^ (1 << 13) = 8193; 8193 ^ (8193 >> 7) = 8193 ^ 64 = 8257;
    // 8257 ^ (8257 << 17) = 8257 + 8257 * 131072
    assert_eq!(r.next_u64(), 8257 + 8257 * 131072);
}

#[test]
fn zero_seed_stays_zero() {
    let mut r = Rng::new(0);
    for _ in 0..10 {
        assert_eq!(r.next_u64(), 0);
    }
}

#[test]
fn nonzero_seed_never_yields_zero() {
    let mut r = Rng::new(7);
    for _ in 0..1000 {
        assert_ne!(r.next_u64(), 0);
    }
}
