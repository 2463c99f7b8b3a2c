use valkeeper::backoff::RetryPolicy;

#[test]
fn doubling_up_to_the_ceiling() {
    // The defaults: floor 10 s, ceiling 300 s, factor 2.
    let p = RetryPolicy::normalize(10, 300, 2, 1);
    let mut interval = p.initial_interval();
    assert_eq!(interval, 10);
    let mut seen = Vec::new();
    for _ in 0..7 {
        seen.push(interval);
        let next = p.next_interval(interval);
        // The law: growth is monotone and never overruns the ceiling.
        assert!(next >= interval);
        assert!(next <= 300);
        interval = next;
    }
    assert_eq!(seen, vec![10, 20, 40, 80, 160, 300, 300]);
}

#[test]
fn fractional_factor() {
    // A factor of 1.5 as the ratio 3/2.
    let p = RetryPolicy::normalize(10, 300, 3, 2);
    assert_eq!(p.next_interval(10), 15);
    assert_eq!(p.next_interval(15), 22);
    assert_eq!(p.next_interval(201), 300);
}

#[test]
fn normalization_clamps_degenerate_options() {
    let p = RetryPolicy::normalize(0, 0, 0, 0);
    assert_eq!(p.min_interval, 1);
    assert_eq!(p.max_interval, 1);
    assert_eq!(p.mul_den, 1);
    assert_eq!(p.mul_num, 1);
    assert_eq!(p.next_interval(1), 1);
}

#[test]
fn factor_below_one_is_raised_to_one() {
    // 0.5 arrives as 500/1000 and is clamped to 1: no shrinking.
    let p = RetryPolicy::normalize(10, 300, 500, 1000);
    assert_eq!(p.mul_num, p.mul_den);
    assert_eq!(p.next_interval(40), 40);
}

#[test]
fn ceiling_below_floor_is_raised() {
    let p = RetryPolicy::normalize(50, 20, 2, 1);
    assert_eq!(p.min_interval, 50);
    assert_eq!(p.max_interval, 50);
    assert_eq!(p.next_interval(50), 50);
}
