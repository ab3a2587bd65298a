//! Standards-compliant QUIC transport limits and the native-TUN bridge
//! policy.
//!
//! Quinn provides RFC 9000 transport behaviour and TLS 1.3. The SHPH
//! handshake runs on a reliable bidirectional stream, tunnel packets travel
//! as RFC 9221 application datagrams. This module holds the bounded
//! configuration, the stream message framing, the datagram size rules and
//! the bridge's per-datagram decisions; durations are nanoseconds.

use std::sync::Arc;
use vstd::prelude::*;

use crate::error::{msg, Result, ShphError};
use crate::text::{append_decimal, decimal};
use crate::wire::{be32_bytes, be32_value};

verus! {

/// Largest handshake message on the control stream.
pub const MAX_HANDSHAKE_MESSAGE_BYTES: usize = 16384;

/// Largest control-plane message.
pub const MAX_CONTROL_MESSAGE_BYTES: usize = 65536;

/// Largest QUIC datagram carrying a layer-3 packet.
pub const MAX_TUN_DATAGRAM_BYTES: usize = 65535;

/// Largest datagram buffer.
pub const MAX_DATAGRAM_BUFFER_BYTES: usize = 1048576;

/// Largest concurrent stream limit.
pub const MAX_CONCURRENT_STREAMS: u64 = 1024;

/// Default idle timeout: thirty seconds.
pub const DEFAULT_IDLE_TIMEOUT_NANOS: u64 = 30_000_000_000;

/// Default datagram buffer size.
pub const DEFAULT_DATAGRAM_BUFFER_BYTES: usize = 262144;

/// Shortest idle timeout: one second.
pub const MIN_IDLE_TIMEOUT_NANOS: u64 = 1_000_000_000;

/// Longest idle timeout: one day.
pub const MAX_IDLE_TIMEOUT_NANOS: u64 = 86_400_000_000_000;

/// Default number of malformed datagrams the bridge tolerates.
pub const DEFAULT_MAX_INVALID_DATAGRAMS: usize = 64;

/// Largest number of malformed datagrams the bridge may tolerate.
pub const MAX_INVALID_DATAGRAMS: usize = 4096;

/// A bounded transport configuration for the standards QUIC path.
#[derive(Debug, Clone)]
pub struct StandardsQuicConfig {
    /// Idle timeout in nanoseconds.
    pub idle_timeout: u64,
    pub max_datagram_buffer_bytes: usize,
    pub max_concurrent_bidirectional_streams: u64,
    pub max_concurrent_unidirectional_streams: u64,
}

impl Default for StandardsQuicConfig {
    fn default() -> (c: Self)
        ensures
            c.idle_timeout == DEFAULT_IDLE_TIMEOUT_NANOS,
            c.max_datagram_buffer_bytes == DEFAULT_DATAGRAM_BUFFER_BYTES,
            c.max_concurrent_bidirectional_streams == 16,
            c.max_concurrent_unidirectional_streams == 0,
    {
        StandardsQuicConfig {
            idle_timeout: DEFAULT_IDLE_TIMEOUT_NANOS,
            max_datagram_buffer_bytes: DEFAULT_DATAGRAM_BUFFER_BYTES,
            max_concurrent_bidirectional_streams: 16,
            max_concurrent_unidirectional_streams: 0,
        }
    }
}

/// Why a QUIC configuration is refused, if it is.
pub open spec fn quic_config_error(c: StandardsQuicConfig) -> Option<Seq<char>> {
    if c.max_datagram_buffer_bytes == 0 || c.max_datagram_buffer_bytes > MAX_DATAGRAM_BUFFER_BYTES {
        Some("QUIC datagram buffer must be between 1 and 1048576 bytes"@)
    } else if c.max_concurrent_bidirectional_streams > MAX_CONCURRENT_STREAMS
        || c.max_concurrent_unidirectional_streams > MAX_CONCURRENT_STREAMS {
        Some("QUIC stream limits cannot exceed 1024"@)
    } else if c.idle_timeout < MIN_IDLE_TIMEOUT_NANOS || c.idle_timeout > MAX_IDLE_TIMEOUT_NANOS {
        Some("QUIC idle timeout must be between 1 and 86400 seconds"@)
    } else {
        None
    }
}

#[verifier::external_type_specification]
#[verifier::external_body]
pub struct ExTransportConfig(quinn::TransportConfig);

/// Builds a `quinn::TransportConfig` from `TransportConfig::default()` with
/// the idle timeout, stream limits and datagram buffer sizes set. The limits
/// are small enough that `VarInt::from_u64` and the idle-timeout conversion
/// succeed; nothing is stated of the resulting value.
#[verifier::external_body]
fn quinn_transport_config(idle_timeout_nanos: u64, bidi: u64, uni: u64, buffer: usize) -> Arc<quinn::TransportConfig>
    requires
        idle_timeout_nanos <= MAX_IDLE_TIMEOUT_NANOS,
        bidi <= MAX_CONCURRENT_STREAMS,
        uni <= MAX_CONCURRENT_STREAMS,
{
    let idle = quinn::IdleTimeout::try_from(std::time::Duration::from_nanos(idle_timeout_nanos)).ok();
    let mut transport = quinn::TransportConfig::default();
    transport
        .max_idle_timeout(idle)
        .max_concurrent_bidi_streams(quinn::VarInt::from_u32(bidi as u32))
        .max_concurrent_uni_streams(quinn::VarInt::from_u32(uni as u32))
        .datagram_receive_buffer_size(Some(buffer))
        .datagram_send_buffer_size(buffer);
    Arc::new(transport)
}

impl StandardsQuicConfig {
    /// Checks the buffer, stream and idle-timeout bounds.
    pub fn validate(&self) -> (r: Result<()>)
        ensures
            r is Ok <==> quic_config_error(*self) is None,
            r matches Err(e) ==> e matches ShphError::Config(m) && m@ == quic_config_error(*self)->0,
    {
        if self.max_datagram_buffer_bytes == 0 || self.max_datagram_buffer_bytes > MAX_DATAGRAM_BUFFER_BYTES {
            return Err(ShphError::Config(msg("QUIC datagram buffer must be between 1 and 1048576 bytes")));
        }
        if self.max_concurrent_bidirectional_streams > MAX_CONCURRENT_STREAMS
            || self.max_concurrent_unidirectional_streams > MAX_CONCURRENT_STREAMS {
            return Err(ShphError::Config(msg("QUIC stream limits cannot exceed 1024")));
        }
        if self.idle_timeout < MIN_IDLE_TIMEOUT_NANOS || self.idle_timeout > MAX_IDLE_TIMEOUT_NANOS {
            return Err(ShphError::Config(msg("QUIC idle timeout must be between 1 and 86400 seconds")));
        }
        Ok(())
    }

    /// The Quinn transport configuration of a valid configuration.
    pub fn transport_config(&self) -> (r: Result<Arc<quinn::TransportConfig>>)
        ensures
            r is Ok <==> quic_config_error(*self) is None,
            r matches Err(e) ==> e matches ShphError::Config(m) && m@ == quic_config_error(*self)->0,
    {
        match self.validate() {
            Ok(()) => {},
            Err(e) => return Err(e),
        }
        Ok(
            quinn_transport_config(
                self.idle_timeout,
                self.max_concurrent_bidirectional_streams,
                self.max_concurrent_unidirectional_streams,
                self.max_datagram_buffer_bytes,
            ),
        )
    }
}

// ---------------------------------------------------------------------------
// Control stream framing and datagram size rules.
// ---------------------------------------------------------------------------

/// Frames one stream message: its length as a big-endian u32, then the
/// bytes. Empty messages and messages above `max` are refused.
pub fn frame_stream_message(payload: &[u8], max: usize) -> (r: Result<Vec<u8>>)
    ensures
        (payload@.len() == 0 || payload@.len() > max) ==> (r matches Err(ShphError::Protocol(m)) && m@
            == "QUIC stream message exceeds bound"@),
        (1 <= payload@.len() <= max && payload@.len() > u32::MAX) ==> (r matches Err(ShphError::Protocol(m))
            && m@ == "QUIC stream message length overflow"@),
        (1 <= payload@.len() <= max && payload@.len() <= u32::MAX) ==> (r matches Ok(f) && f@ == be32_bytes(
            payload@.len() as u32,
        ) + payload@),
{
    if payload.len() == 0 || payload.len() > max {
        return Err(ShphError::Protocol(msg("QUIC stream message exceeds bound")));
    }
    if payload.len() > 0xffff_ffff {
        return Err(ShphError::Protocol(msg("QUIC stream message length overflow")));
    }
    let mut f: Vec<u8> = Vec::new();
    crate::wire::push_be32(&mut f, payload.len() as u32);
    crate::wire::push_bytes(&mut f, payload);
    Ok(f)
}

/// The message length a stream length prefix declares; refused when zero
/// or above `max`.
pub fn stream_message_len(prefix: [u8; 4], max: usize) -> (r: Result<usize>)
    ensures
        ({
            let n = be32_value(prefix[0], prefix[1], prefix[2], prefix[3]);
            &&& (n == 0 || n > max) ==> (r matches Err(ShphError::Protocol(m)) && m@
                == "QUIC stream message length invalid"@)
            &&& (1 <= n <= max) ==> r == Ok::<usize, ShphError>(n as usize)
        }),
{
    let n: u64 = (prefix[0] as u64) * 0x1000000 + (prefix[1] as u64) * 0x10000 + (prefix[2] as u64) * 256
        + prefix[3] as u64;
    if n == 0 || n > max as u64 {
        return Err(ShphError::Protocol(msg("QUIC stream message length invalid")));
    }
    Ok(n as usize)
}

/// Checks a datagram against the 65535-byte bound and the peer's
/// negotiated maximum (`None` when the peer negotiated none).
pub fn check_datagram_send(payload_len: usize, peer_max: Option<usize>) -> (r: Result<()>)
    ensures
        payload_len > MAX_TUN_DATAGRAM_BYTES ==> (r matches Err(ShphError::Protocol(m)) && m@
            == "QUIC datagram exceeds 65535 bytes"@),
        payload_len <= MAX_TUN_DATAGRAM_BYTES && (peer_max is None || payload_len > peer_max->0) ==> (r matches Err(
            ShphError::Protocol(m),
        ) && m@ == "QUIC datagram exceeds negotiated peer maximum"@),
        (payload_len <= MAX_TUN_DATAGRAM_BYTES && peer_max is Some && payload_len <= peer_max->0) ==> r is Ok,
{
    if payload_len > MAX_TUN_DATAGRAM_BYTES {
        return Err(ShphError::Protocol(msg("QUIC datagram exceeds 65535 bytes")));
    }
    match peer_max {
        Some(mx) => {
            if payload_len > mx {
                return Err(ShphError::Protocol(msg("QUIC datagram exceeds negotiated peer maximum")));
            }
            Ok(())
        },
        None => Err(ShphError::Protocol(msg("QUIC datagram exceeds negotiated peer maximum"))),
    }
}

/// Whether the lossy bridge sender treats a packet as too large: above
/// 65535 bytes, or above a negotiated peer maximum.
pub fn lossy_datagram_too_large(payload_len: usize, peer_max: Option<usize>) -> (b: bool)
    ensures
        b == (payload_len > MAX_TUN_DATAGRAM_BYTES || (peer_max is Some && payload_len > peer_max->0)),
{
    payload_len > MAX_TUN_DATAGRAM_BYTES || match peer_max {
        Some(mx) => payload_len > mx,
        None => false,
    }
}

/// Refuses a received datagram above 65535 bytes.
pub fn check_received_datagram(len: usize) -> (r: Result<()>)
    ensures
        len > MAX_TUN_DATAGRAM_BYTES ==> (r matches Err(ShphError::Protocol(m)) && m@
            == "received QUIC datagram exceeds 65535 bytes"@),
        len <= MAX_TUN_DATAGRAM_BYTES ==> r is Ok,
{
    if len > MAX_TUN_DATAGRAM_BYTES {
        return Err(ShphError::Protocol(msg("received QUIC datagram exceeds 65535 bytes")));
    }
    Ok(())
}

// ---------------------------------------------------------------------------
// Native-TUN bridge.
// ---------------------------------------------------------------------------

/// Runtime limits for the standards-QUIC native-TUN bridge.
#[derive(Debug, Clone, Copy, PartialEq, Eq, Structural)]
pub struct StandardsTunBridgeConfig {
    /// Malformed authenticated datagrams tolerated before the connection is
    /// closed.
    pub max_invalid_datagrams: usize,
}

impl Default for StandardsTunBridgeConfig {
    fn default() -> (c: Self)
        ensures
            c.max_invalid_datagrams == DEFAULT_MAX_INVALID_DATAGRAMS,
    {
        StandardsTunBridgeConfig { max_invalid_datagrams: DEFAULT_MAX_INVALID_DATAGRAMS }
    }
}

impl StandardsTunBridgeConfig {
    /// The configuration itself, when its limit is between 1 and
    /// `MAX_INVALID_DATAGRAMS`.
    pub fn validate(self) -> (r: Result<Self>)
        ensures
            (1 <= self.max_invalid_datagrams <= MAX_INVALID_DATAGRAMS) ==> r == Ok::<Self, ShphError>(self),
            !(1 <= self.max_invalid_datagrams <= MAX_INVALID_DATAGRAMS) ==> (r matches Err(ShphError::Config(m))
                && m@ == "standards TUN bridge invalid-datagram limit must be between 1 and 4096"@),
    {
        if self.max_invalid_datagrams == 0 || self.max_invalid_datagrams > MAX_INVALID_DATAGRAMS {
            return Err(
                ShphError::Config(msg("standards TUN bridge invalid-datagram limit must be between 1 and 4096")),
            );
        }
        Ok(self)
    }
}

/// Counters emitted by one standards-QUIC native-TUN bridge run.
#[derive(Debug, Default, Clone, Copy, PartialEq, Eq, Structural)]
pub struct StandardsTunBridgeStats {
    pub tun_to_quic_packets: u64,
    pub tun_to_quic_bytes: u64,
    pub quic_to_tun_packets: u64,
    pub quic_to_tun_bytes: u64,
    pub dropped_oversized_packets: u64,
    pub dropped_invalid_datagrams: u64,
}

/// Saturating addition of counters.
pub open spec fn sat_add(a: u64, b: u64) -> u64 {
    if a + b > u64::MAX { u64::MAX } else { (a + b) as u64 }
}

/// Saturating increment of a counter.
pub fn sat_add_u64(a: u64, b: u64) -> (r: u64)
    ensures
        r == sat_add(a, b),
{
    if a > u64::MAX - b { u64::MAX } else { a + b }
}

/// Counters that are all zero.
pub open spec fn zero_stats() -> StandardsTunBridgeStats {
    StandardsTunBridgeStats {
        tun_to_quic_packets: 0,
        tun_to_quic_bytes: 0,
        quic_to_tun_packets: 0,
        quic_to_tun_bytes: 0,
        dropped_oversized_packets: 0,
        dropped_invalid_datagrams: 0,
    }
}

impl StandardsTunBridgeStats {
    /// All counters zero.
    pub fn zero() -> (s: Self)
        ensures
            s == zero_stats(),
    {
        StandardsTunBridgeStats {
            tun_to_quic_packets: 0,
            tun_to_quic_bytes: 0,
            quic_to_tun_packets: 0,
            quic_to_tun_bytes: 0,
            dropped_oversized_packets: 0,
            dropped_invalid_datagrams: 0,
        }
    }

    /// Counter-wise saturating sum of two runs' counters.
    pub fn combine(self, other: Self) -> (s: Self)
        ensures
            s.tun_to_quic_packets == sat_add(self.tun_to_quic_packets, other.tun_to_quic_packets),
            s.tun_to_quic_bytes == sat_add(self.tun_to_quic_bytes, other.tun_to_quic_bytes),
            s.quic_to_tun_packets == sat_add(self.quic_to_tun_packets, other.quic_to_tun_packets),
            s.quic_to_tun_bytes == sat_add(self.quic_to_tun_bytes, other.quic_to_tun_bytes),
            s.dropped_oversized_packets == sat_add(self.dropped_oversized_packets, other.dropped_oversized_packets),
            s.dropped_invalid_datagrams == sat_add(self.dropped_invalid_datagrams, other.dropped_invalid_datagrams),
    {
        StandardsTunBridgeStats {
            tun_to_quic_packets: sat_add_u64(self.tun_to_quic_packets, other.tun_to_quic_packets),
            tun_to_quic_bytes: sat_add_u64(self.tun_to_quic_bytes, other.tun_to_quic_bytes),
            quic_to_tun_packets: sat_add_u64(self.quic_to_tun_packets, other.quic_to_tun_packets),
            quic_to_tun_bytes: sat_add_u64(self.quic_to_tun_bytes, other.quic_to_tun_bytes),
            dropped_oversized_packets: sat_add_u64(self.dropped_oversized_packets, other.dropped_oversized_packets),
            dropped_invalid_datagrams: sat_add_u64(self.dropped_invalid_datagrams, other.dropped_invalid_datagrams),
        }
    }
}

/// Combining with zero counters changes nothing.
pub proof fn lemma_combine_zero_identity(a: StandardsTunBridgeStats)
    ensures
        sat_add(a.tun_to_quic_packets, zero_stats().tun_to_quic_packets) == a.tun_to_quic_packets,
        sat_add(a.tun_to_quic_bytes, zero_stats().tun_to_quic_bytes) == a.tun_to_quic_bytes,
        sat_add(a.quic_to_tun_packets, zero_stats().quic_to_tun_packets) == a.quic_to_tun_packets,
        sat_add(a.quic_to_tun_bytes, zero_stats().quic_to_tun_bytes) == a.quic_to_tun_bytes,
        sat_add(a.dropped_oversized_packets, zero_stats().dropped_oversized_packets) == a.dropped_oversized_packets,
        sat_add(a.dropped_invalid_datagrams, zero_stats().dropped_invalid_datagrams) == a.dropped_invalid_datagrams,
{
}

/// Saturating sums of counters are commutative and never fall below
/// either operand.
pub proof fn lemma_sat_add_commutative_monotone(a: u64, b: u64)
    ensures
        sat_add(a, b) == sat_add(b, a),
        sat_add(a, b) >= a,
        sat_add(a, b) >= b,
{
}

/// Whether a received datagram is too large for a layer-3 packet.
pub fn is_oversized_tun_datagram(datagram: &[u8]) -> (b: bool)
    ensures
        b == (datagram@.len() > crate::tun::MAX_TUN_PACKET_BYTES),
{
    datagram.len() > crate::tun::MAX_TUN_PACKET_BYTES
}

/// Whether a received datagram is not a valid IP packet.
pub fn is_invalid_tun_datagram(datagram: &[u8]) -> (b: bool)
    ensures
        b == (datagram@.len() == 0 || !crate::tun::ip_packet_ok(datagram@)),
{
    datagram.len() == 0 || crate::tun::validate_ip_packet(datagram).is_err()
}

/// What the bridge does with one received datagram.
#[derive(Debug, PartialEq, Eq)]
pub enum InboundAction {
    /// Write the datagram to the TUN device.
    Deliver,
    /// Drop the datagram and keep reading.
    Drop,
    /// Close the connection and stop with this error message.
    Close(String),
}

/// The inbound (QUIC to TUN) half of a bridge run: its counters and the
/// number of malformed datagrams seen.
#[derive(Debug)]
pub struct InboundBridge {
    pub stats: StandardsTunBridgeStats,
    pub invalid_datagrams: usize,
    pub config: StandardsTunBridgeConfig,
}

impl InboundBridge {
    /// A fresh inbound half.
    pub fn new(config: StandardsTunBridgeConfig) -> (b: Self)
        ensures
            b.config == config,
            b.invalid_datagrams == 0,
            b.stats == zero_stats(),
    {
        InboundBridge { stats: StandardsTunBridgeStats::zero(), invalid_datagrams: 0, config }
    }

    /// Classifies one received datagram: oversized and invalid datagrams
    /// are dropped and counted, valid ones are delivered; once the malformed
    /// count reaches the configured limit the connection is closed.
    pub fn on_datagram(&mut self, datagram: &[u8]) -> (a: InboundAction)
        ensures
            final(self).config == old(self).config,
            datagram@.len() > crate::tun::MAX_TUN_PACKET_BYTES ==> final(self).stats.dropped_oversized_packets
                == sat_add(old(self).stats.dropped_oversized_packets, 1) && final(self).invalid_datagrams == (if old(
                self,
            ).invalid_datagrams == usize::MAX { usize::MAX } else { (old(self).invalid_datagrams + 1) as usize }),
            datagram@.len() <= crate::tun::MAX_TUN_PACKET_BYTES && (datagram@.len() == 0 || !crate::tun::ip_packet_ok(
                datagram@,
            )) ==> final(self).stats.dropped_invalid_datagrams == sat_add(old(self).stats.dropped_invalid_datagrams, 1)
                && final(self).invalid_datagrams == (if old(self).invalid_datagrams == usize::MAX { usize::MAX } else { (old(
                self,
            ).invalid_datagrams + 1) as usize }),
            datagram@.len() <= crate::tun::MAX_TUN_PACKET_BYTES && datagram@.len() > 0 && crate::tun::ip_packet_ok(datagram@)
                ==> final(self).invalid_datagrams == old(self).invalid_datagrams && final(self).stats == old(self).stats,
            final(self).invalid_datagrams >= final(self).config.max_invalid_datagrams ==> (a matches InboundAction::Close(m)
                && m@ == "received "@ + decimal(final(self).invalid_datagrams as nat) + " malformed QUIC datagrams"@),
            final(self).invalid_datagrams < final(self).config.max_invalid_datagrams ==> (a is Deliver <==> (datagram@.len()
                <= crate::tun::MAX_TUN_PACKET_BYTES && datagram@.len() > 0 && crate::tun::ip_packet_ok(datagram@))),
            final(self).invalid_datagrams < final(self).config.max_invalid_datagrams ==> !(a is Close),
    {
        let mut deliver = false;
        if is_oversized_tun_datagram(datagram) {
            self.invalid_datagrams = if self.invalid_datagrams == usize::MAX { usize::MAX } else { self.invalid_datagrams + 1 };
            self.stats.dropped_oversized_packets = sat_add_u64(self.stats.dropped_oversized_packets, 1);
        } else if is_invalid_tun_datagram(datagram) {
            self.invalid_datagrams = if self.invalid_datagrams == usize::MAX { usize::MAX } else { self.invalid_datagrams + 1 };
            self.stats.dropped_invalid_datagrams = sat_add_u64(self.stats.dropped_invalid_datagrams, 1);
        } else {
            deliver = true;
        }
        if self.invalid_datagrams >= self.config.max_invalid_datagrams {
            let mut m = String::from_str("received ");
            append_decimal(&mut m, self.invalid_datagrams as u64);
            m.append(" malformed QUIC datagrams");
            return InboundAction::Close(m);
        }
        if deliver { InboundAction::Deliver } else { InboundAction::Drop }
    }

    /// Counts a datagram written to the TUN device.
    pub fn on_delivered(&mut self, len: usize)
        ensures
            final(self).config == old(self).config,
            final(self).invalid_datagrams == old(self).invalid_datagrams,
            final(self).stats.quic_to_tun_packets == sat_add(old(self).stats.quic_to_tun_packets, 1),
            final(self).stats.quic_to_tun_bytes == sat_add(old(self).stats.quic_to_tun_bytes, len as u64),
            final(self).stats.dropped_invalid_datagrams == old(self).stats.dropped_invalid_datagrams,
            final(self).stats.dropped_oversized_packets == old(self).stats.dropped_oversized_packets,
            final(self).stats.tun_to_quic_packets == old(self).stats.tun_to_quic_packets,
            final(self).stats.tun_to_quic_bytes == old(self).stats.tun_to_quic_bytes,
    {
        self.stats.quic_to_tun_packets = sat_add_u64(self.stats.quic_to_tun_packets, 1);
        self.stats.quic_to_tun_bytes = sat_add_u64(self.stats.quic_to_tun_bytes, len as u64);
    }
}

/// Counts a packet sent from the TUN device over QUIC.
pub fn count_sent(stats: &mut StandardsTunBridgeStats, len: usize)
    ensures
        final(stats).tun_to_quic_packets == sat_add(old(stats).tun_to_quic_packets, 1),
        final(stats).tun_to_quic_bytes == sat_add(old(stats).tun_to_quic_bytes, len as u64),
        final(stats).quic_to_tun_packets == old(stats).quic_to_tun_packets,
        final(stats).quic_to_tun_bytes == old(stats).quic_to_tun_bytes,
        final(stats).dropped_oversized_packets == old(stats).dropped_oversized_packets,
        final(stats).dropped_invalid_datagrams == old(stats).dropped_invalid_datagrams,
{
    stats.tun_to_quic_packets = sat_add_u64(stats.tun_to_quic_packets, 1);
    stats.tun_to_quic_bytes = sat_add_u64(stats.tun_to_quic_bytes, len as u64);
}

/// Counts a TUN packet dropped for being too large for a datagram.
pub fn count_oversized(stats: &mut StandardsTunBridgeStats)
    ensures
        final(stats).dropped_oversized_packets == sat_add(old(stats).dropped_oversized_packets, 1),
        final(stats).tun_to_quic_packets == old(stats).tun_to_quic_packets,
        final(stats).tun_to_quic_bytes == old(stats).tun_to_quic_bytes,
        final(stats).quic_to_tun_packets == old(stats).quic_to_tun_packets,
        final(stats).quic_to_tun_bytes == old(stats).quic_to_tun_bytes,
        final(stats).dropped_invalid_datagrams == old(stats).dropped_invalid_datagrams,
{
    stats.dropped_oversized_packets = sat_add_u64(stats.dropped_oversized_packets, 1);
}

} // verus!
