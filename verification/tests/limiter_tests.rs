use path_sizer::limiter::{Limiter, DEFAULT_WALK_PERMITS};

#[test]
fn permits_are_bounded_by_the_capacity() {
    let mut lim = Limiter::new(DEFAULT_WALK_PERMITS);
    for _ in 0..DEFAULT_WALK_PERMITS {
        assert!(lim.try_acquire());
    }
    assert!(!lim.try_acquire());
    assert_eq!(lim.in_flight, DEFAULT_WALK_PERMITS);
}

#[test]
fn releasing_frees_a_permit() {
    let mut lim = Limiter::new(1);
    assert!(lim.try_acquire());
    assert!(!lim.try_acquire());
    lim.release();
    assert!(lim.try_acquire());
}

#[test]
fn zero_capacity_grants_nothing() {
    let mut lim = Limiter::new(0);
    assert!(!lim.try_acquire());
}
