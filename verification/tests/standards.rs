use shph::standards::{
    check_datagram_send, frame_stream_message, is_invalid_tun_datagram, is_oversized_tun_datagram,
    stream_message_len, InboundAction, InboundBridge, StandardsQuicConfig, StandardsTunBridgeConfig,
    StandardsTunBridgeStats, MAX_CONTROL_MESSAGE_BYTES, MAX_TUN_DATAGRAM_BYTES,
};
use shph::tun::MAX_TUN_PACKET_BYTES;
use std::time::Duration;

#[test]
fn standards_config_is_bounded() {
    let config = StandardsQuicConfig::default();
    assert_eq!(config.max_datagram_buffer_bytes, 256 * 1024);
    assert!(config.max_concurrent_bidirectional_streams <= 16);
    assert_eq!(MAX_TUN_DATAGRAM_BYTES, 65_535);
}

#[test]
fn standards_config_rejects_unbounded_idle_timeout() {
    let with_idle = |d: Duration| StandardsQuicConfig { idle_timeout: d.as_nanos() as u64, ..Default::default() };
    assert!(with_idle(Duration::ZERO).transport_config().is_err());
    assert!(with_idle(Duration::from_millis(999)).transport_config().is_err());
    assert!(with_idle(Duration::from_secs(24 * 60 * 60 + 1)).transport_config().is_err());
    assert!(with_idle(Duration::from_secs(1)).transport_config().is_ok());
}

#[test]
fn bridge_config_rejects_unbounded_invalid_datagram_policy() {
    assert!(StandardsTunBridgeConfig { max_invalid_datagrams: 0 }.validate().is_err());
    assert!(StandardsTunBridgeConfig { max_invalid_datagrams: 4097 }.validate().is_err());
    assert!(StandardsTunBridgeConfig::default().validate().is_ok());
}

#[test]
fn bridge_stats_combine_saturates() {
    let left = StandardsTunBridgeStats { tun_to_quic_packets: u64::MAX, ..Default::default() };
    let right = StandardsTunBridgeStats { tun_to_quic_packets: 1, quic_to_tun_packets: 2, ..Default::default() };
    let combined = left.combine(right);
    assert_eq!(combined.tun_to_quic_packets, u64::MAX);
    assert_eq!(combined.quic_to_tun_packets, 2);
}

#[test]
fn bridge_rejects_non_ip_and_accepts_valid_ipv4() {
    assert!(is_invalid_tun_datagram(b"not an IP packet"));

    let mut packet = vec![0u8; 20];
    packet[0] = 0x45;
    packet[2..4].copy_from_slice(&(20u16).to_be_bytes());
    assert!(!is_invalid_tun_datagram(&packet));
}

#[test]
fn bridge_accepts_valid_ipv6_and_rejects_oversized_datagrams() {
    let mut packet = vec![0u8; 40 + 4];
    packet[0] = 0x60;
    packet[4..6].copy_from_slice(&(4u16).to_be_bytes());
    assert!(!is_invalid_tun_datagram(&packet));
    assert!(is_invalid_tun_datagram(&vec![0u8; MAX_TUN_PACKET_BYTES + 1]));
    assert!(is_oversized_tun_datagram(&vec![0u8; MAX_TUN_PACKET_BYTES + 1]));
}

#[test]
fn stream_messages_are_framed_and_bounded() {
    assert_eq!(frame_stream_message(b"abc", MAX_CONTROL_MESSAGE_BYTES).unwrap(), vec![0, 0, 0, 3, b'a', b'b', b'c']);
    assert!(frame_stream_message(b"", MAX_CONTROL_MESSAGE_BYTES).is_err());
    assert!(frame_stream_message(&[0u8; 10], 9).is_err());
    assert_eq!(stream_message_len([0, 0, 1, 0], 1024).unwrap(), 256);
    assert!(stream_message_len([0, 0, 0, 0], 1024).is_err());
    assert!(stream_message_len([0, 1, 0, 0], 1024).is_err());
}

#[test]
fn datagram_send_checks_peer_limits() {
    assert!(check_datagram_send(100, Some(1200)).is_ok());
    assert!(check_datagram_send(1300, Some(1200)).is_err());
    assert!(check_datagram_send(100, None).is_err());
    assert!(check_datagram_send(70_000, Some(100_000)).is_err());
}

#[test]
fn inbound_bridge_closes_after_the_malformed_limit() {
    let mut bridge = InboundBridge::new(StandardsTunBridgeConfig { max_invalid_datagrams: 2 });
    let mut packet = vec![0u8; 20];
    packet[0] = 0x45;
    packet[2..4].copy_from_slice(&(20u16).to_be_bytes());
    assert_eq!(bridge.on_datagram(&packet), InboundAction::Deliver);
    bridge.on_delivered(packet.len());
    assert_eq!(bridge.on_datagram(b"junk"), InboundAction::Drop);
    assert_eq!(
        bridge.on_datagram(&vec![0u8; MAX_TUN_PACKET_BYTES + 1]),
        InboundAction::Close("received 2 malformed QUIC datagrams".to_string())
    );
    assert_eq!(bridge.stats.quic_to_tun_packets, 1);
    assert_eq!(bridge.stats.quic_to_tun_bytes, 20);
    assert_eq!(bridge.stats.dropped_invalid_datagrams, 1);
    assert_eq!(bridge.stats.dropped_oversized_packets, 1);
}
