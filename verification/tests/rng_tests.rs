use evoengine::rng::{Rng, RATE_SCALE};

#[test]
fn same_seed_same_stream() {
    let mut a = Rng::from_seed(31337);
    let mut b = Rng::from_seed(31337);
    for _ in 0..64 {
        assert_eq!(a.next_u64(), b.next_u64());
    }
}

#[test]
fn different_seeds_diverge() {
    let mut a = Rng::from_seed(1);
    let mut b = Rng::from_seed(2);
    let xs: Vec<u64> = (0..8).map(|_| a.next_u64()).collect();
    let ys: Vec<u64> = (0..8).map(|_| b.next_u64()).collect();
    assert_ne!(xs, ys);
}

#[test]
fn bernoulli_extremes_are_certain() {
    let mut rng = Rng::from_seed(5);
    for _ in 0..32 {
        assert!(!rng.next_bernoulli(0));
        assert!(rng.next_bernoulli(RATE_SCALE));
    }
}

#[test]
fn range_draws_stay_inside() {
    let mut rng = Rng::from_seed(8);
    for _ in 0..256 {
        let v = rng.next_in_range(-3, 12);
        assert!((-3..=12).contains(&v));
    }
    // a degenerate interval has one possible value
    assert_eq!(rng.next_in_range(4, 4), 4);
}

#[test]
fn below_draws_stay_below() {
    let mut rng = Rng::from_seed(9);
    for _ in 0..256 {
        assert!(rng.next_below(13) < 13);
    }
    assert_eq!(rng.next_below(1), 0);
}
