use shph::error::ShphError;
use shph::firewall::FirewallTransport;
use shph::wintun::{
    classify_wait_status, filter_key, parse_sha256_hex, ring_capacity_bounds, validate_adapter_name,
    validate_ring_capacity, wfp_error, wide_null, WAIT_FAILED, WAIT_TIMEOUT, WINTUN_DEFAULT_RING_CAPACITY,
};

#[test]
fn ring_capacities_are_bounded() {
    let (min, max) = ring_capacity_bounds();
    assert_eq!((min, max), (128 * 1024, 64 * 1024 * 1024));
    assert!(validate_ring_capacity(WINTUN_DEFAULT_RING_CAPACITY).is_ok());
    assert!(validate_ring_capacity(min).is_ok());
    assert!(validate_ring_capacity(max).is_ok());
    assert!(matches!(validate_ring_capacity(min - 1), Err(ShphError::InvalidArgument(_))));
    assert!(matches!(validate_ring_capacity(max + 1), Err(ShphError::InvalidArgument(_))));
}

#[test]
fn wait_statuses_are_classified() {
    assert!(classify_wait_status(0, 0).is_ok());
    assert!(matches!(classify_wait_status(WAIT_TIMEOUT, 0), Err(ShphError::Timeout)));
    match classify_wait_status(WAIT_FAILED, 5) {
        Err(ShphError::Tun(m)) => assert_eq!(m, "Wintun read wait failed: Win32 error 5"),
        other => panic!("unexpected {other:?}"),
    }
    match classify_wait_status(128, 0) {
        Err(ShphError::Tun(m)) => assert_eq!(m, "Wintun read wait returned unexpected status 128"),
        other => panic!("unexpected {other:?}"),
    }
}

#[test]
fn adapter_names_are_validated() {
    assert!(validate_adapter_name("SHPH").is_ok());
    assert!(validate_adapter_name("").is_err());
    assert!(validate_adapter_name(" shph").is_err());
    assert!(validate_adapter_name("shph\t").is_err());
    assert!(validate_adapter_name("sh\u{0}ph").is_err());
    assert!(validate_adapter_name(&"a".repeat(255)).is_ok());
    assert!(validate_adapter_name(&"a".repeat(256)).is_err());
    assert!(validate_adapter_name(&"\u{1F600}".repeat(128)).is_err());
    assert!(validate_adapter_name(&"\u{1F600}".repeat(127)).is_ok());
}

#[test]
fn wide_strings_are_nul_terminated() {
    assert_eq!(wide_null("ab").expect("wide"), vec![0x61, 0x62, 0]);
    assert_eq!(wide_null("\u{1F600}").expect("wide"), vec![0xD83D, 0xDE00, 0]);
    assert!(matches!(wide_null("a\u{0}b"), Err(ShphError::InvalidArgument(_))));
}

#[test]
fn runtime_hash_text_is_parsed() {
    let text = format!("  {}\n", "0A".repeat(32));
    assert_eq!(parse_sha256_hex(&text).expect("hash"), [0x0a; 32]);
    assert!(parse_sha256_hex(&"0a".repeat(31)).is_err());
    assert!(parse_sha256_hex(&format!("{}zz", "0a".repeat(31))).is_err());
}

#[test]
fn filter_keys_are_versioned_and_distinct() {
    let a = filter_key("peer", 1);
    let b = filter_key("peer", 2);
    assert_ne!(a, b);
    assert_eq!(a[6] & 0xf0, 0x50);
    assert_eq!(a[8] & 0xc0, 0x80);
    assert_eq!(filter_key("peer", 1), a);
}

#[test]
fn wfp_errors_name_the_status() {
    match wfp_error("FwpmEngineOpen0", 5) {
        ShphError::PermissionDenied(m) => assert_eq!(
            m,
            "FwpmEngineOpen0 failed with Windows Filtering Platform status 0x00000005; administrator elevation is required"
        ),
        other => panic!("unexpected {other:?}"),
    }
    assert_eq!(FirewallTransport::Tcp.protocol_number(), 6);
    assert_eq!(FirewallTransport::Udp.protocol_number(), 17);
}

#[test]
fn ring_capacity_is_bounded() {
    let (min, max) = ring_capacity_bounds();
    assert!(min <= WINTUN_DEFAULT_RING_CAPACITY);
    assert!(WINTUN_DEFAULT_RING_CAPACITY <= max);
    assert!(validate_ring_capacity(min).is_ok());
    assert!(validate_ring_capacity(max).is_ok());
    assert!(validate_ring_capacity(min - 1).is_err());
    assert!(validate_ring_capacity(max.saturating_add(1)).is_err());
}

#[test]
fn adapter_names_are_bounded() {
    assert!(validate_adapter_name("SHPH").is_ok());
    assert!(validate_adapter_name("").is_err());
    assert!(validate_adapter_name(&"x".repeat(256)).is_err());
    assert!(validate_adapter_name(" bad").is_err());
    assert!(validate_adapter_name("bad\0name").is_err());
    assert!(validate_adapter_name("bad\nname").is_err());
    assert!(validate_adapter_name(&"😀".repeat(128)).is_err());
}

#[test]
fn wide_strings_are_null_terminated() {
    assert_eq!(wide_null("wintun.dll").unwrap().last(), Some(&0));
    assert!(wide_null("bad\0name").is_err());
}

#[test]
fn wintun_hash_requires_exact_hex_sha256() {
    assert_eq!(parse_sha256_hex(&"ab".repeat(32)).unwrap(), [0xab; 32]);
    assert_eq!(parse_sha256_hex(&"AB".repeat(32)).unwrap(), [0xab; 32]);
    assert!(parse_sha256_hex("").is_err());
    assert!(parse_sha256_hex(&"g".repeat(64)).is_err());
    assert!(parse_sha256_hex(&"a".repeat(63)).is_err());
}

#[test]
fn wait_status_classification_is_explicit() {
    assert!(classify_wait_status(0, 0).is_ok());
    assert!(matches!(classify_wait_status(WAIT_TIMEOUT, 0), Err(ShphError::Timeout)));
    assert!(matches!(
        classify_wait_status(WAIT_FAILED, 5),
        Err(ShphError::Tun(message)) if message.contains("error 5")
    ));
    assert!(matches!(
        classify_wait_status(0x80, 0),
        Err(ShphError::Tun(message)) if message.contains("unexpected status")
    ));
}
