use shph::error::ShphError;
use shph::tun::{
    tun_read_outcome, tun_write_outcome, validate_ip_packet, validate_outbound_packet, validate_packet_buffer,
    validate_tun_mtu, validate_tun_name, DEFAULT_TUN_MTU_BYTES, MAX_TUN_PACKET_BYTES, TUN_READ_BUFFER_BYTES,
};

#[test]
fn validates_ipv4_packet_lengths() {
    let mut packet = vec![0u8; 20];
    packet[0] = 0x45;
    packet[2..4].copy_from_slice(&(20u16).to_be_bytes());
    assert!(validate_ip_packet(&packet).is_ok());

    packet[2..4].copy_from_slice(&(21u16).to_be_bytes());
    assert!(validate_ip_packet(&packet).is_err());
}

#[test]
fn validates_ipv6_packet_lengths() {
    let mut packet = vec![0u8; 40 + 4];
    packet[0] = 0x60;
    packet[4..6].copy_from_slice(&(4u16).to_be_bytes());
    assert!(validate_ip_packet(&packet).is_ok());

    packet[4..6].copy_from_slice(&(3u16).to_be_bytes());
    assert!(validate_ip_packet(&packet).is_err());
}

#[test]
fn rejects_non_ip_and_oversized_packets() {
    assert!(validate_ip_packet(b"not-an-ip").is_err());
    assert!(validate_ip_packet(&vec![0u8; MAX_TUN_PACKET_BYTES + 1]).is_err());
}

#[test]
fn validates_conservative_native_tun_mtu() {
    assert_eq!(DEFAULT_TUN_MTU_BYTES, 1_360);
    assert!(validate_tun_mtu(DEFAULT_TUN_MTU_BYTES).is_ok());
    assert!(validate_tun_mtu(575).is_err());
    assert!(validate_tun_mtu(MAX_TUN_PACKET_BYTES + 1).is_err());
}

#[test]
fn validate_tun_name_accepts_valid() {
    assert!(validate_tun_name("shph0").is_ok());
    assert!(validate_tun_name("vpn-bridge_0").is_ok());
}

#[test]
fn validate_tun_name_rejects_bad_names() {
    assert!(validate_tun_name("").is_err());
    assert!(validate_tun_name("this-name-is-way-too-long").is_err());
    assert!(validate_tun_name(" shph0").is_err());
    assert!(validate_tun_name("shph0 ").is_err());
    assert!(validate_tun_name("name with space").is_err());
    assert!(validate_tun_name("bad\x00name").is_err());
    assert!(validate_tun_name("ünicode").is_err());
}

#[test]
fn tun_name_errors_carry_their_reasons() {
    assert!(matches!(
        validate_tun_name("this-name-is-way-too-long"),
        Err(shph::error::ShphError::InvalidArgument(m)) if m == "TUN interface name too long: max 15 bytes, got 25"
    ));
    assert!(matches!(
        validate_tun_name("ünicode"),
        Err(shph::error::ShphError::InvalidArgument(m)) if m == "TUN interface name must be ASCII"
    ));
    assert!(matches!(
        validate_tun_name("bad\x00name"),
        Err(shph::error::ShphError::InvalidArgument(m)) if m == "TUN interface name cannot contain null bytes"
    ));
}

#[test]
fn receive_buffers_are_bounded() {
    assert!(validate_packet_buffer(&[]).is_err());
    assert!(validate_packet_buffer(&vec![0u8; TUN_READ_BUFFER_BYTES]).is_ok());
    assert!(validate_packet_buffer(&vec![0u8; TUN_READ_BUFFER_BYTES + 1]).is_err());
}

#[test]
fn tun_read_and_write_outcomes() {
    let mut packet = vec![0u8; 20];
    packet[0] = 0x45;
    packet[3] = 20;
    let mut buffer = packet.clone();
    buffer.extend_from_slice(&[0xAA; 8]);
    assert_eq!(tun_read_outcome(&buffer, 20).expect("packet"), 20);
    assert!(matches!(tun_read_outcome(&buffer, 0), Err(ShphError::ConnectionClosed)));
    assert!(matches!(tun_read_outcome(&buffer, 19), Err(ShphError::Tun(_))));
    assert!(tun_write_outcome(20, 20).is_ok());
    match tun_write_outcome(10, 20) {
        Err(ShphError::Tun(m)) => assert_eq!(m, "short TUN packet write: expected 20 bytes, wrote 10"),
        other => panic!("unexpected {other:?}"),
    }
    assert!(validate_outbound_packet(&packet).is_ok());
    assert!(matches!(validate_outbound_packet(&[]), Err(ShphError::Tun(_))));
    assert!(matches!(validate_outbound_packet(&vec![0x45u8; 65536]), Err(ShphError::Tun(_))));
}
