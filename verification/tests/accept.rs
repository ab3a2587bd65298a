use shph::accept::{
    bounded_quic_timeout_secs, pad_hello, pad_hello_randomly, pad_hello_with_random_byte, quic_read_error_is_fatal, tcp_handshake_deadline_secs,
    QuicClientAttempts, TcpAcceptState,
};
use shph::error::ShphError;
use shph::transport::{map_io_error, IoFailureKind};

const SECOND: u64 = 1_000_000_000;

#[test]
fn handshake_timeouts_are_clamped() {
    assert_eq!(tcp_handshake_deadline_secs(0), 1);
    assert_eq!(tcp_handshake_deadline_secs(30), 30);
    assert_eq!(tcp_handshake_deadline_secs(600), 60);
    assert_eq!(bounded_quic_timeout_secs(0), 1);
    assert_eq!(bounded_quic_timeout_secs(120), 120);
    assert_eq!(bounded_quic_timeout_secs(301), 300);
}

#[test]
fn quic_server_skips_timeouts_and_malformed_datagrams() {
    assert!(!quic_read_error_is_fatal(&ShphError::Timeout));
    assert!(!quic_read_error_is_fatal(&ShphError::Protocol("bad".to_string())));
    assert!(quic_read_error_is_fatal(&ShphError::Io("gone".to_string())));
}

#[test]
fn tcp_accept_challenges_busy_peers_and_drops_floods() {
    let mut state = TcpAcceptState::new(false);
    for i in 0..3u64 {
        assert!(state.connection_arrived("10.0.0.1", SECOND + i));
        assert!(!state.requires_cookie("10.0.0.1"));
    }
    assert!(state.connection_arrived("10.0.0.1", SECOND + 3));
    assert!(state.requires_cookie("10.0.0.1"));
    for i in 4..8u64 {
        assert!(state.connection_arrived("10.0.0.1", SECOND + i));
    }
    assert!(!state.connection_arrived("10.0.0.1", SECOND + 8));
    assert!(state.connection_arrived("10.0.0.2", SECOND + 8));
    match state.give_up() {
        ShphError::Transport(text) => {
            assert_eq!(text, "peer 10.0.0.1 exceeded connection rate limit (8 per 10s)")
        },
        other => panic!("unexpected error {other:?}"),
    }
}

#[test]
fn tcp_accept_remembers_the_last_failure() {
    let state = TcpAcceptState::new(true);
    assert!(state.reads_pq_ciphertext());
    assert!(matches!(state.give_up(), ShphError::Timeout));

    let mut state = TcpAcceptState::new(false);
    assert!(!state.reads_pq_ciphertext());
    assert!(!state.cookie_checked(false));
    match state.give_up() {
        ShphError::Auth(text) => assert_eq!(text, "invalid or expired pre-authentication cookie"),
        other => panic!("unexpected error {other:?}"),
    }

    let mut state = TcpAcceptState::new(false);
    assert!(state.cookie_checked(true));
    state.connection_failed(ShphError::ConnectionClosed);
    assert!(matches!(state.give_up(), ShphError::ConnectionClosed));
}

#[test]
fn quic_client_makes_three_attempts() {
    let mut attempts = QuicClientAttempts::new();
    assert!(attempts.start_attempt());
    assert!(!attempts.reply_received(false));
    assert!(attempts.start_attempt());
    attempts.attempt_failed(ShphError::Timeout);
    assert!(attempts.start_attempt());
    assert!(!attempts.reply_received(false));
    assert!(!attempts.start_attempt());
    match attempts.give_up() {
        ShphError::Protocol(text) => assert_eq!(text, "peer address mismatch during handshake"),
        other => panic!("unexpected error {other:?}"),
    }
    let mut attempts = QuicClientAttempts::new();
    assert!(attempts.start_attempt());
    assert!(attempts.reply_received(true));
}

#[test]
fn io_failures_map_to_transport_errors() {
    assert!(matches!(map_io_error(IoFailureKind::TimedOut, "t"), ShphError::Timeout));
    assert!(matches!(map_io_error(IoFailureKind::WouldBlock, "w"), ShphError::Timeout));
    assert!(matches!(map_io_error(IoFailureKind::BrokenPipe, "b"), ShphError::ConnectionClosed));
    assert!(matches!(map_io_error(IoFailureKind::UnexpectedEof, "e"), ShphError::ConnectionClosed));
    match map_io_error(IoFailureKind::Other, "disk full") {
        ShphError::Io(text) => assert_eq!(text, "disk full"),
        other => panic!("unexpected error {other:?}"),
    }
}

#[test]
fn hello_padding_is_trailing_whitespace_within_the_limit() {
    let hello = br#"{"proto":"shph"}"#.to_vec();
    let padded = pad_hello(hello.clone(), 64).expect("padding");
    assert_eq!(&padded[..hello.len()], hello.as_slice());
    assert_eq!(padded.len(), hello.len() + 64);
    assert!(padded[hello.len()..].iter().all(|b| *b == b' '));
    assert!(matches!(pad_hello(hello.clone(), 65), Err(ShphError::Protocol(_))));
    assert_eq!(pad_hello(hello.clone(), 0).expect("no padding"), hello);
}

#[test]
fn random_hello_padding_stays_within_bound() {
    let hello = br#"{"proto":"shph"}"#.to_vec();
    for _ in 0..128 {
        let padded = pad_hello_randomly(hello.clone()).expect("padding");
        assert!((hello.len()..=hello.len() + 64).contains(&padded.len()));
        assert_eq!(&padded[..hello.len()], hello.as_slice());
        assert!(padded[hello.len()..].iter().all(|b| *b == b' '));
    }
}

#[test]
fn hello_padding_length_follows_the_random_byte() {
    let hello = b"{}".to_vec();
    assert_eq!(pad_hello_with_random_byte(hello.clone(), 0).expect("pad"), hello);
    assert_eq!(pad_hello_with_random_byte(hello.clone(), 64).expect("pad").len(), 2 + 64);
    assert_eq!(pad_hello_with_random_byte(hello.clone(), 65).expect("pad"), hello);
    assert_eq!(pad_hello_with_random_byte(hello.clone(), 255).expect("pad").len(), 2 + 255 % 65);
}
