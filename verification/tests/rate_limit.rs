use genai_core::rate_limit::RateLimiter;

#[test]
fn admits_up_to_limit_within_window() {
    let mut rl = RateLimiter::new(3, 60);
    assert!(rl.allow_at("client", 0));
    assert!(rl.allow_at("client", 10_000));
    assert!(rl.allow_at("client", 20_000));
    assert!(!rl.allow_at("client", 30_000));
    assert!(!rl.allow_at("client", 40_000));
}

#[test]
fn window_slide_frees_a_slot() {
    // limit 2, window 60 s: two calls at t=0 succeed, one at t=30 s fails,
    // one at t=61 s succeeds because the t=0 timestamps are stale by then.
    let mut rl = RateLimiter::new(2, 60);
    assert!(rl.allow_at("c", 0));
    assert!(rl.allow_at("c", 0));
    assert!(!rl.allow_at("c", 30_000));
    assert!(rl.allow_at("c", 61_000));
}

#[test]
fn clients_are_isolated() {
    let mut rl = RateLimiter::new(1, 60);
    assert!(rl.allow_at("a", 0));
    assert!(!rl.allow_at("a", 1));
    assert!(rl.allow_at("b", 1));
    assert!(!rl.allow_at("a", 2));
}

#[test]
fn rejected_attempts_record_nothing() {
    // With limit 1: the rejected attempt at t=1 s must not extend the
    // window, so t=0 ages out at t=60 s regardless of the rejection.
    let mut rl = RateLimiter::new(1, 60);
    assert!(rl.allow_at("c", 0));
    assert!(!rl.allow_at("c", 1_000));
    assert!(rl.allow_at("c", 60_000));
}

#[test]
fn exact_window_boundary_is_stale() {
    // A timestamp aged exactly window milliseconds no longer counts.
    let mut rl = RateLimiter::new(1, 60);
    assert!(rl.allow_at("c", 5));
    assert!(!rl.allow_at("c", 60_004));
    assert!(rl.allow_at("c", 60_005));
}

#[test]
fn empty_identifier_is_an_ordinary_key() {
    let mut rl = RateLimiter::new(1, 60);
    assert!(rl.allow_at("", 0));
    assert!(!rl.allow_at("", 1));
    assert!(rl.allow_at("x", 1));
}

#[test]
fn end_to_end_quota_scenario() {
    // Ten requests per minute for one address: all ten admitted, the
    // eleventh rejected, the twelfth admitted after 61 simulated seconds.
    let mut rl = RateLimiter::new(10, 60);
    for i in 0..10u64 {
        assert!(rl.allow_at("1.2.3.4", i));
    }
    assert!(!rl.allow_at("1.2.3.4", 10));
    assert!(rl.allow_at("1.2.3.4", 61_000));
}

#[test]
fn self_clocked_allow_enforces_quota() {
    let mut rl = RateLimiter::new(2, 60);
    assert!(rl.allow("10.0.0.1"));
    assert!(rl.allow("10.0.0.1"));
    assert!(!rl.allow("10.0.0.1"));
    assert!(rl.allow("10.0.0.2"));
}

#[test]
fn same_instant_calls_never_exceed_quota() {
    // All checks carry one identical clock reading, as simultaneous
    // requests would: exactly the quota is admitted, none beyond it.
    let mut rl = RateLimiter::new(3, 60);
    assert!(rl.allow_at("c", 100));
    assert!(rl.allow_at("c", 100));
    assert!(rl.allow_at("c", 100));
    assert!(!rl.allow_at("c", 100));
    assert!(!rl.allow_at("c", 100));
}
