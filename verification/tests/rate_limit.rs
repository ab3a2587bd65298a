use shph::rate_limit::{
    PeerRateLimiter, PeerRateLimiterProbe, COOKIE_CHALLENGE_THRESHOLD, MAX_CONNECTS_PER_PEER_PER_WINDOW,
    MAX_QUIC_TRACKED_PEERS, PEER_RATE_WINDOW_NANOS,
};

#[test]
fn peer_rate_limiter_allows_under_cap() {
    let mut rl = PeerRateLimiter::new();
    for step in 0..MAX_CONNECTS_PER_PEER_PER_WINDOW as u64 {
        assert!(rl.check_and_record("127.0.0.1", step).is_ok(), "under-cap connects allowed");
    }
    assert!(rl.check_and_record("127.0.0.1", 100).is_err(), "over-cap connect from same peer must be rejected");
}

#[test]
fn peer_rate_limiter_isolates_distinct_ips() {
    let mut rl = PeerRateLimiter::new();
    for step in 0..MAX_CONNECTS_PER_PEER_PER_WINDOW as u64 {
        rl.check_and_record("10.0.0.1", step).unwrap();
    }
    assert!(rl.check_and_record("10.0.0.1", 50).is_err());
    assert!(rl.check_and_record("10.0.0.2", 51).is_ok(), "a distinct IP has its own budget");
}

#[test]
fn peer_rate_limiter_requires_cookie_only_after_threshold() {
    let mut rl = PeerRateLimiter::new();
    for step in 0..COOKIE_CHALLENGE_THRESHOLD.saturating_sub(1) as u64 {
        rl.check_and_record("192.0.2.10", step).unwrap();
    }
    assert!(!rl.requires_cookie("192.0.2.10"));
    rl.check_and_record("192.0.2.10", 10).unwrap();
    assert!(rl.requires_cookie("192.0.2.10"));
}

#[test]
fn peer_rate_limiter_forgets_connects_outside_the_window() {
    let mut rl = PeerRateLimiter::new();
    for step in 0..MAX_CONNECTS_PER_PEER_PER_WINDOW as u64 {
        rl.check_and_record("198.51.100.1", step).unwrap();
    }
    assert!(rl.check_and_record("198.51.100.1", PEER_RATE_WINDOW_NANOS - 1).is_err());
    assert!(rl.check_and_record("198.51.100.1", PEER_RATE_WINDOW_NANOS).is_ok());
}

#[test]
fn peer_rate_limiter_evicts_oldest_source() {
    let mut probe = PeerRateLimiterProbe::new();
    for octet in 0..MAX_QUIC_TRACKED_PEERS {
        let peer = format!("10.{}.{}.1", octet / 256, octet % 256);
        assert!(probe.check(&peer, octet as u64 + 1));
    }
    assert!(probe.check("11.0.0.1", 5_000));

    let mut rl = PeerRateLimiter::new();
    for step in 0..COOKIE_CHALLENGE_THRESHOLD as u64 {
        rl.check_and_record("10.0.0.1", 1 + step).unwrap();
    }
    assert!(rl.requires_cookie("10.0.0.1"));
    for octet in 1..MAX_QUIC_TRACKED_PEERS {
        let peer = format!("10.{}.{}.1", octet / 256, octet % 256);
        rl.check_and_record(&peer, 100 + octet as u64).unwrap();
    }
    rl.check_and_record("11.0.0.1", 5_000).unwrap();
    assert!(!rl.requires_cookie("10.0.0.1"), "the oldest source gave way");
}

#[test]
fn probe_default_admits_first_connect() {
    let mut probe = PeerRateLimiterProbe::default();
    assert!(probe.check("203.0.113.5", 1));
}
