//! Layer-3 packet, MTU and interface-name validation for the TUN boundary.

use vstd::prelude::*;
use crate::error::{is_whitespace, msg, whitespace_char, Result, ShphError};
use crate::text::{append_decimal, decimal};

verus! {

/// Largest IPv4/IPv6 packet representable by the layer-3 TUN interface.
pub const MAX_TUN_PACKET_BYTES: usize = 65535;
/// Conservative default virtual-interface MTU for the encrypted transport.
pub const DEFAULT_TUN_MTU_BYTES: usize = 1360;
/// Smallest generally useful IPv4 MTU for the native interface configuration.
pub const MIN_TUN_MTU_BYTES: usize = 576;
/// One byte beyond the maximum packet size, so an oversized frame is detected.
pub const TUN_READ_BUFFER_BYTES: usize = 65536;
/// Longest Linux interface name in bytes.
pub const TUN_NAME_MAX_BYTES: usize = 15;

/// Big-endian value of two bytes.
pub open spec fn be16(hi: u8, lo: u8) -> int {
    hi as int * 256 + lo as int
}

/// An IPv4 packet whose header length and total length agree with its size.
pub open spec fn ipv4_packet_ok(p: Seq<u8>) -> bool {
    &&& p.len() >= 20
    &&& (p[0] % 16) * 4 >= 20
    &&& (p[0] % 16) * 4 <= p.len()
    &&& be16(p[2], p[3]) >= (p[0] % 16) * 4
    &&& be16(p[2], p[3]) == p.len()
}

/// An IPv6 packet whose non-zero payload length matches its size.
pub open spec fn ipv6_packet_ok(p: Seq<u8>) -> bool {
    &&& p.len() >= 40
    &&& be16(p[4], p[5]) != 0
    &&& 40 + be16(p[4], p[5]) == p.len()
}

/// A packet accepted at the TUN boundary.
pub open spec fn ip_packet_ok(p: Seq<u8>) -> bool {
    &&& 0 < p.len() <= MAX_TUN_PACKET_BYTES
    &&& (p[0] / 16 == 4 ==> ipv4_packet_ok(p))
    &&& (p[0] / 16 == 6 ==> ipv6_packet_ok(p))
    &&& (p[0] / 16 == 4 || p[0] / 16 == 6)
}

/// Check that an MTU lies between the IPv4 minimum and the TUN packet limit.
pub fn validate_tun_mtu(mtu: usize) -> (res: Result<()>)
    ensures
        res is Ok <==> MIN_TUN_MTU_BYTES <= mtu <= MAX_TUN_PACKET_BYTES,
        res matches Err(e) ==> e is Config,
{
    if mtu < MIN_TUN_MTU_BYTES || mtu > MAX_TUN_PACKET_BYTES {
        return Err(ShphError::Config(msg("TUN MTU must be between 576 and 65535 bytes")));
    }
    Ok(())
}

fn validate_ipv4_packet(packet: &[u8]) -> (res: Result<()>)
    requires
        packet@.len() > 0,
    ensures
        res is Ok <==> ipv4_packet_ok(packet@),
        res matches Err(e) ==> e is Tun,
{
    if packet.len() < 20 {
        return Err(ShphError::Tun(msg("IPv4 packet is shorter than its header")));
    }
    let header_len = ((packet[0] % 16) as usize) * 4;
    if header_len < 20 {
        return Err(ShphError::Tun(msg("IPv4 header length is invalid")));
    }
    if header_len > packet.len() {
        return Err(ShphError::Tun(msg("IPv4 header exceeds packet length")));
    }
    let total_len = (packet[2] as usize) * 256 + packet[3] as usize;
    if total_len < header_len || total_len != packet.len() {
        return Err(ShphError::Tun(msg("IPv4 total length does not match the packet")));
    }
    Ok(())
}

fn validate_ipv6_packet(packet: &[u8]) -> (res: Result<()>)
    ensures
        res is Ok <==> ipv6_packet_ok(packet@),
        res matches Err(e) ==> e is Tun,
{
    if packet.len() < 40 {
        return Err(ShphError::Tun(msg("IPv6 packet is shorter than its header")));
    }
    let payload_len = (packet[4] as usize) * 256 + packet[5] as usize;
    if payload_len == 0 {
        return Err(ShphError::Tun(msg("IPv6 zero payload length/jumbo packets are unsupported")));
    }
    if 40 + payload_len != packet.len() {
        return Err(ShphError::Tun(msg("IPv6 payload length does not match the packet")));
    }
    Ok(())
}

/// Validate a layer-3 packet before it crosses the TUN boundary.
pub fn validate_ip_packet(packet: &[u8]) -> (res: Result<()>)
    ensures
        res is Ok <==> ip_packet_ok(packet@),
        (20 <= packet@.len() <= MAX_TUN_PACKET_BYTES && packet@[0] / 16 == 4 && 5 <= packet@[0] % 16
            && (packet@[0] % 16) * 4 <= packet@.len() && packet@[2] * 256 + packet@[3] == packet@.len())
            ==> res is Ok,
        res matches Err(e) ==> e is Tun,
{
    if packet.len() == 0 {
        return Err(ShphError::Tun(msg("IP packet cannot be empty")));
    }
    if packet.len() > MAX_TUN_PACKET_BYTES {
        return Err(ShphError::Tun(msg("IP packet exceeds TUN safety limit of 65535 bytes")));
    }
    let version = packet[0] / 16;
    if version == 4 {
        validate_ipv4_packet(packet)
    } else if version == 6 {
        validate_ipv6_packet(packet)
    } else {
        Err(ShphError::Tun(msg("unsupported IP version in TUN packet")))
    }
}

/// An IPv4 packet is accepted whatever its header length from five to
/// fifteen words (options included), provided the header fits in the packet
/// and the total-length field equals the packet's size.
pub proof fn lemma_ipv4_header_lengths_accepted(p: Seq<u8>)
    requires
        20 <= p.len() <= MAX_TUN_PACKET_BYTES,
        p[0] / 16 == 4,
        5 <= p[0] % 16 <= 15,
        (p[0] % 16) * 4 <= p.len(),
        p[2] * 256 + p[3] == p.len(),
    ensures
        ip_packet_ok(p),
{
}

/// Check a receive buffer: non-empty and no larger than one oversized read.
pub fn validate_packet_buffer(packet: &[u8]) -> (res: Result<()>)
    ensures
        res is Ok <==> 0 < packet@.len() <= TUN_READ_BUFFER_BYTES,
        res matches Err(e) ==> e is Tun,
{
    if packet.len() == 0 {
        return Err(ShphError::Tun(msg("packet buffer cannot be empty")));
    }
    if packet.len() > TUN_READ_BUFFER_BYTES {
        return Err(ShphError::Tun(msg("packet buffer exceeds TUN safety limit of 65536 bytes")));
    }
    Ok(())
}

/// Characters allowed in a TUN interface name.
pub open spec fn tun_name_char(c: char) -> bool {
    ('a' <= c && c <= 'z') || ('A' <= c && c <= 'Z') || ('0' <= c && c <= '9') || c == '_' || c == '-' || c == '.'
        || c == ':'
}

/// Why a TUN interface name is refused, if it is.
pub open spec fn tun_name_error(name: Seq<char>) -> Option<Seq<char>> {
    if name.len() == 0 {
        Some("TUN interface name cannot be empty"@)
    } else if whitespace_char(name[0]) || whitespace_char(name.last()) {
        Some("TUN interface name cannot have leading or trailing whitespace"@)
    } else if vstd::utf8::encode_utf8(name).len() > TUN_NAME_MAX_BYTES {
        Some(
            "TUN interface name too long: max 15 bytes, got "@ + decimal(vstd::utf8::encode_utf8(name).len()),
        )
    } else if exists|i: int| 0 <= i < name.len() && (#[trigger] name[i] as u32) >= 128 {
        Some("TUN interface name must be ASCII"@)
    } else if exists|i: int| 0 <= i < name.len() && #[trigger] name[i] == '\0' {
        Some("TUN interface name cannot contain null bytes"@)
    } else if exists|i: int| 0 <= i < name.len() && !tun_name_char(#[trigger] name[i]) {
        Some("TUN interface name contains unsupported characters"@)
    } else {
        None
    }
}

/// Checks a TUN interface name: non-empty, no surrounding whitespace, at
/// most 15 bytes, ASCII, no NUL, and only letters, digits, `_`, `-`, `.`
/// and `:`.
pub fn validate_tun_name(name: &str) -> (r: Result<()>)
    ensures
        r is Ok <==> tun_name_error(name@) is None,
        r matches Err(e) ==> e matches ShphError::InvalidArgument(m) && m@ == tun_name_error(name@)->0,
{
    let n = name.unicode_len();
    if n == 0 {
        return Err(ShphError::InvalidArgument(msg("TUN interface name cannot be empty")));
    }
    if is_whitespace(name.get_char(0)) || is_whitespace(name.get_char(n - 1)) {
        return Err(ShphError::InvalidArgument(msg("TUN interface name cannot have leading or trailing whitespace")));
    }
    let bytes = name.as_bytes();
    let byte_len = bytes.len();
    if byte_len > TUN_NAME_MAX_BYTES {
        let mut m = String::from_str("TUN interface name too long: max 15 bytes, got ");
        append_decimal(&mut m, byte_len as u64);
        return Err(ShphError::InvalidArgument(m));
    }
    let mut non_ascii = false;
    let mut has_nul = false;
    let mut bad_char = false;
    for c in it: name.chars()
        invariant
            it.seq() == name@,
            non_ascii <==> exists|i: int| 0 <= i < it.index() && (#[trigger] name@[i] as u32) >= 128,
            has_nul <==> exists|i: int| 0 <= i < it.index() && #[trigger] name@[i] == '\0',
            bad_char <==> exists|i: int| 0 <= i < it.index() && !tun_name_char(#[trigger] name@[i]),
    {
        if c as u32 >= 128 {
            non_ascii = true;
        }
        if c == '\0' {
            has_nul = true;
        }
        if !(('a' <= c && c <= 'z') || ('A' <= c && c <= 'Z') || ('0' <= c && c <= '9') || c == '_' || c == '-'
            || c == '.' || c == ':') {
            bad_char = true;
        }
    }
    if non_ascii {
        return Err(ShphError::InvalidArgument(msg("TUN interface name must be ASCII")));
    }
    if has_nul {
        return Err(ShphError::InvalidArgument(msg("TUN interface name cannot contain null bytes")));
    }
    if bad_char {
        return Err(ShphError::InvalidArgument(msg("TUN interface name contains unsupported characters")));
    }
    Ok(())
}

/// Checks a packet before it is written to the TUN device: non-empty, at
/// most 65535 bytes, and a well-formed IPv4 or IPv6 packet.
pub fn validate_outbound_packet(packet: &[u8]) -> (res: Result<()>)
    ensures
        res is Ok <==> (0 < packet@.len() <= MAX_TUN_PACKET_BYTES && ip_packet_ok(packet@)),
        res matches Err(e) ==> e is Tun,
{
    if packet.len() == 0 {
        return Err(ShphError::Tun(msg("TUN packet cannot be empty")));
    }
    if packet.len() > MAX_TUN_PACKET_BYTES {
        return Err(ShphError::Tun(msg("packet exceeds TUN safety limit of 65535 bytes")));
    }
    validate_ip_packet(packet)
}

/// What a completed TUN read of `n` bytes into `packet` yields: the packet
/// length when the bytes are a well-formed IP packet; a closed connection
/// for an empty read; an error, after which the caller wipes the buffer,
/// otherwise.
pub fn tun_read_outcome(packet: &[u8], n: usize) -> (res: Result<usize>)
    requires
        n <= packet@.len(),
    ensures
        n > MAX_TUN_PACKET_BYTES ==> (res matches Err(ShphError::Tun(m)) && m@
            == "received TUN packet exceeds the 65535-byte safety limit"@),
        n == 0 ==> res matches Err(ShphError::ConnectionClosed),
        0 < n <= MAX_TUN_PACKET_BYTES ==> (res is Ok <==> ip_packet_ok(packet@.take(n as int))),
        res matches Ok(k) ==> k == n,
{
    if n > MAX_TUN_PACKET_BYTES {
        return Err(ShphError::Tun(msg("received TUN packet exceeds the 65535-byte safety limit")));
    }
    if n == 0 {
        return Err(ShphError::ConnectionClosed);
    }
    let received = vstd::slice::slice_subrange(packet, 0, n);
    assert(received@ =~= packet@.take(n as int));
    match validate_ip_packet(received) {
        Ok(()) => Ok(n),
        Err(e) => Err(e),
    }
}

/// What a completed TUN write of `written` bytes of a packet of `expected`
/// bytes yields: a packet is written whole or the write fails.
pub fn tun_write_outcome(written: usize, expected: usize) -> (res: Result<()>)
    ensures
        res is Ok <==> written == expected,
        written != expected ==> (res matches Err(ShphError::Tun(m)) && m@ == "short TUN packet write: expected "@
            + decimal(expected as nat) + " bytes, wrote "@ + decimal(written as nat)),
{
    if written == expected {
        return Ok(());
    }
    let mut m = msg("short TUN packet write: expected ");
    append_decimal(&mut m, expected as u64);
    m.append(" bytes, wrote ");
    append_decimal(&mut m, written as u64);
    Err(ShphError::Tun(m))
}

} // verus!
