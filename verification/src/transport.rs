//! Transport selection and the bounded framing rules of the legacy TCP and
//! QUIC paths and of the file adapters.

use vstd::prelude::*;

use crate::error::{msg, Result, ShphError};
use crate::wire::{be32_bytes, be32_value};
use vstd::string::StringSliceAdditionalSpecFns;

verus! {

/// Largest TCP frame.
pub const MAX_FRAME_BYTES: usize = 65536;

/// Largest legacy QUIC frame.
pub const MAX_QUIC_FRAME_BYTES: usize = 16384;

/// AEAD nonce and tag overhead of a Shroud frame.
pub const SHROUD_AEAD_OVERHEAD: usize = 28;

/// Largest plaintext in a legacy QUIC frame.
pub const MAX_QUIC_PAYLOAD_BYTES: usize = 16352;

/// Largest plaintext in a TCP frame.
pub const MAX_TCP_PAYLOAD_BYTES: usize = 65508;

/// Most directory entries a file-adapter scan may visit.
pub const MAX_QUEUE_SCAN_ENTRIES: usize = 4096;

/// Most bytes a file-adapter scan may read.
pub const MAX_QUEUE_SCAN_BYTES: u64 = 8388608;

/// Most memory file-adapter candidates may hold.
pub const MAX_QUEUE_CANDIDATE_MEMORY: usize = 4194304;

/// Longest metadata value of a file-adapter envelope.
pub const MAX_ADAPTER_METADATA_BYTES: usize = 1024;

/// The transports SHPH can run over.
#[derive(Debug, Clone, Copy, PartialEq, Eq, Structural)]
pub enum TransportMode {
    Tcp,
    Quic,
    QuicStandard,
    OfflineMesh,
    DataMule,
}

/// The code points of a character sequence with ASCII capitals folded.
pub open spec fn lowered_codes(s: Seq<char>) -> Seq<u32> {
    crate::obfuscation::codes(s).map_values(|u: u32| crate::obfuscation::ascii_lower_code(u))
}

/// The transport a lowered name selects.
pub open spec fn mode_for_name(n: Seq<u32>) -> Option<TransportMode> {
    let c = |s: Seq<char>| crate::obfuscation::codes(s);
    if n == c("tcp"@) {
        Some(TransportMode::Tcp)
    } else if n == c("quic"@) {
        Some(TransportMode::Quic)
    } else if n == c("quic-standard"@) || n == c("quic-std"@) || n == c("quic-rfc"@) {
        Some(TransportMode::QuicStandard)
    } else if n == c("offline-mesh"@) || n == c("offlinemesh"@) {
        Some(TransportMode::OfflineMesh)
    } else if n == c("data-mule"@) || n == c("data_mule"@) || n == c("datamule"@) {
        Some(TransportMode::DataMule)
    } else {
        None
    }
}

fn codes_match(v: &Vec<u32>, s: &str) -> (b: bool)
    ensures
        b == (v@ == crate::obfuscation::codes(s@)),
{
    let n = s.unicode_len();
    if n != v.len() {
        return false;
    }
    let mut j: usize = 0;
    while j < n
        invariant
            n == s@.len(),
            n == v@.len(),
            j <= n,
            forall|k: int| 0 <= k < j ==> v@[k] == s@[k] as u32,
        decreases n - j,
    {
        if v[j] != s.get_char(j) as u32 {
            proof {
                assert(crate::obfuscation::codes(s@)[j as int] == s@[j as int] as u32);
            }
            return false;
        }
        j = j + 1;
    }
    assert(v@ =~= crate::obfuscation::codes(s@));
    true
}

impl TransportMode {
    /// Parses a transport name, ASCII case folded; aliases are accepted.
    pub fn parse(value: &str) -> (r: Result<Self>)
        ensures
            match mode_for_name(lowered_codes(value@)) {
                Some(m) => r == Ok::<TransportMode, ShphError>(m),
                None => r matches Err(ShphError::InvalidArgument(e)) && e@ == "unsupported transport mode: "@
                    + value@,
            },
    {
        let mut lowered: Vec<u32> = Vec::new();
        for c in it: value.chars()
            invariant
                it.seq() == value@,
                lowered@ == lowered_codes(value@.take(it.index() as int)),
        {
            let u = c as u32;
            lowered.push(if 65 <= u && u <= 90 { u + 32 } else { u });
            proof {
                assert(value@.take(it.index() + 1) =~= value@.take(it.index() as int).push(c));
                assert(lowered@ =~= lowered_codes(value@.take(it.index() + 1)));
            }
        }
        assert(value@.take(value@.len() as int) =~= value@);
        if codes_match(&lowered, "tcp") {
            Ok(TransportMode::Tcp)
        } else if codes_match(&lowered, "quic") {
            Ok(TransportMode::Quic)
        } else if codes_match(&lowered, "quic-standard") || codes_match(&lowered, "quic-std") || codes_match(
            &lowered,
            "quic-rfc",
        ) {
            Ok(TransportMode::QuicStandard)
        } else if codes_match(&lowered, "offline-mesh") || codes_match(&lowered, "offlinemesh") {
            Ok(TransportMode::OfflineMesh)
        } else if codes_match(&lowered, "data-mule") || codes_match(&lowered, "data_mule") || codes_match(
            &lowered,
            "datamule",
        ) {
            Ok(TransportMode::DataMule)
        } else {
            let mut m = String::from_str("unsupported transport mode: ");
            m.append(value);
            Err(ShphError::InvalidArgument(m))
        }
    }
}

/// Refuses a TCP payload larger than a frame can carry after AEAD overhead.
pub fn validate_tcp_payload(payload: &[u8]) -> (r: Result<()>)
    ensures
        payload@.len() <= MAX_TCP_PAYLOAD_BYTES ==> r is Ok,
        payload@.len() > MAX_TCP_PAYLOAD_BYTES ==> (r matches Err(ShphError::Protocol(m)) && m@
            == "TCP payload exceeds the 65508-byte frame capacity"@),
{
    if payload.len() > MAX_TCP_PAYLOAD_BYTES {
        return Err(ShphError::Protocol(msg("TCP payload exceeds the 65508-byte frame capacity")));
    }
    Ok(())
}

/// Refuses a plain legacy QUIC payload larger than a frame can carry.
pub fn validate_quic_payload(payload: &[u8]) -> (r: Result<()>)
    ensures
        payload@.len() <= MAX_QUIC_PAYLOAD_BYTES ==> r is Ok,
        payload@.len() > MAX_QUIC_PAYLOAD_BYTES ==> (r matches Err(ShphError::Protocol(m)) && m@
            == "QUIC payload exceeds the 16352-byte frame capacity"@),
{
    if payload.len() > MAX_QUIC_PAYLOAD_BYTES {
        return Err(ShphError::Protocol(msg("QUIC payload exceeds the 16352-byte frame capacity")));
    }
    Ok(())
}

/// The ciphertext length a TCP frame prefix declares; refused when zero or
/// above `MAX_FRAME_BYTES`.
pub fn tcp_frame_len(prefix: [u8; 4]) -> (r: Result<usize>)
    ensures
        ({
            let n = be32_value(prefix[0], prefix[1], prefix[2], prefix[3]);
            &&& (n == 0 || n > MAX_FRAME_BYTES) ==> (r matches Err(ShphError::Protocol(m)) && m@
                == "encrypted frame length invalid"@)
            &&& (1 <= n <= MAX_FRAME_BYTES) ==> r == Ok::<usize, ShphError>(n as usize)
        }),
{
    let n: u64 = (prefix[0] as u64) * 0x1000000 + (prefix[1] as u64) * 0x10000 + (prefix[2] as u64) * 256
        + prefix[3] as u64;
    if n == 0 || n > MAX_FRAME_BYTES as u64 {
        return Err(ShphError::Protocol(msg("encrypted frame length invalid")));
    }
    Ok(n as usize)
}

/// The TCP frame of a ciphertext: its length as a big-endian u32, then the
/// bytes; refused when the length does not fit a u32.
pub fn frame_tcp_ciphertext(encrypted: &[u8]) -> (r: Result<Vec<u8>>)
    ensures
        encrypted@.len() <= u32::MAX ==> (r matches Ok(f) && f@ == be32_bytes(encrypted@.len() as u32) + encrypted@),
        encrypted@.len() > u32::MAX ==> (r matches Err(ShphError::Protocol(m)) && m@
            == "encrypted frame length overflows u32"@),
{
    if encrypted.len() > 0xffff_ffff {
        return Err(ShphError::Protocol(msg("encrypted frame length overflows u32")));
    }
    let mut f: Vec<u8> = Vec::new();
    crate::wire::push_be32(&mut f, encrypted.len() as u32);
    crate::wire::push_bytes(&mut f, encrypted);
    Ok(f)
}

/// Why `frame_quic_payload` refuses an encrypted payload, if it does.
pub open spec fn quic_frame_error(len: nat) -> Option<Seq<char>> {
    if len == 0 {
        Some("empty QUIC payload"@)
    } else if len > MAX_QUIC_FRAME_BYTES {
        Some("QUIC frame exceeds configured size"@)
    } else if len + 4 > MAX_QUIC_FRAME_BYTES {
        Some("QUIC frame exceeds transport datagram budget"@)
    } else {
        None
    }
}

/// The legacy QUIC datagram of an encrypted payload: its length as a
/// big-endian u32, then the bytes, within `MAX_QUIC_FRAME_BYTES`.
pub fn frame_quic_payload(encrypted: &[u8]) -> (r: Result<Vec<u8>>)
    ensures
        r is Ok <==> quic_frame_error(encrypted@.len()) is None,
        r matches Ok(f) ==> f@ == be32_bytes(encrypted@.len() as u32) + encrypted@,
        r matches Err(e) ==> e matches ShphError::Protocol(m) && m@ == quic_frame_error(encrypted@.len())->0,
{
    if encrypted.len() == 0 {
        return Err(ShphError::Protocol(msg("empty QUIC payload")));
    }
    if encrypted.len() > MAX_QUIC_FRAME_BYTES {
        return Err(ShphError::Protocol(msg("QUIC frame exceeds configured size")));
    }
    if encrypted.len() + 4 > MAX_QUIC_FRAME_BYTES {
        return Err(ShphError::Protocol(msg("QUIC frame exceeds transport datagram budget")));
    }
    let mut f: Vec<u8> = Vec::new();
    crate::wire::push_be32(&mut f, encrypted.len() as u32);
    crate::wire::push_bytes(&mut f, encrypted);
    Ok(f)
}

/// Why `quic_frame_payload` refuses a datagram of `len` received bytes.
pub open spec fn quic_unframe_error(packet: Seq<u8>, len: nat) -> Option<Seq<char>> {
    if !(4 <= len <= MAX_QUIC_FRAME_BYTES) || packet.len() != len {
        Some("invalid QUIC frame length"@)
    } else if be32_value(packet[0], packet[1], packet[2], packet[3]) == 0 || be32_value(
        packet[0],
        packet[1],
        packet[2],
        packet[3],
    ) > MAX_QUIC_FRAME_BYTES || 4 + be32_value(packet[0], packet[1], packet[2], packet[3]) != len {
        Some("invalid QUIC payload length"@)
    } else {
        None
    }
}

/// The encrypted payload of a legacy QUIC datagram of `len` received bytes.
pub fn quic_frame_payload(packet: &[u8], len: usize) -> (r: Result<Vec<u8>>)
    ensures
        r is Ok <==> quic_unframe_error(packet@, len as nat) is None,
        r matches Ok(p) ==> p@ == packet@.skip(4),
        r matches Err(e) ==> e matches ShphError::Protocol(m) && m@ == quic_unframe_error(packet@, len as nat)->0,
{
    if len < 4 || len > MAX_QUIC_FRAME_BYTES || packet.len() != len {
        return Err(ShphError::Protocol(msg("invalid QUIC frame length")));
    }
    let n: u64 = (packet[0] as u64) * 0x1000000 + (packet[1] as u64) * 0x10000 + (packet[2] as u64) * 256
        + packet[3] as u64;
    if n == 0 || n > MAX_QUIC_FRAME_BYTES as u64 || 4 + n != len as u64 {
        return Err(ShphError::Protocol(msg("invalid QUIC payload length")));
    }
    let p = crate::wire::copy_bytes(&packet[4..len]);
    assert(packet@.subrange(4, len as int) =~= packet@.skip(4));
    Ok(p)
}

/// Round trip: the payload of a framed legacy QUIC datagram is the
/// encrypted payload that was framed.
pub proof fn lemma_quic_frame_round_trip(encrypted: Seq<u8>, frame: Seq<u8>)
    requires
        quic_frame_error(encrypted.len()) is None,
        frame == be32_bytes(encrypted.len() as u32) + encrypted,
    ensures
        quic_unframe_error(frame, frame.len()) is None,
        frame.skip(4) == encrypted,
{
    assert(frame.skip(4) =~= encrypted);
    let v = encrypted.len() as u32;
    assert(be32_value(frame[0], frame[1], frame[2], frame[3]) == encrypted.len()) by (nonlinear_arith)
        requires
            frame[0] == (v / 0x1000000) as u8,
            frame[1] == ((v / 0x10000) % 256) as u8,
            frame[2] == ((v / 256) % 256) as u8,
            frame[3] == (v % 256) as u8,
            v == encrypted.len(),
    ;
}

/// Whether a data-mule envelope is older, or further in the future, than
/// the allowed age.
pub open spec fn envelope_expired(created_at: u64, now: u64, max_age: u64) -> bool {
    (if now >= created_at { now - created_at } else { 0 }) > max_age || (if created_at >= now {
        created_at - now
    } else {
        0
    }) > max_age
}

/// Whether a data-mule envelope created at `created_at_unix_ms` is expired
/// at `now_unix_ms` (clock skew in either direction counts).
pub fn data_mule_envelope_expired(created_at_unix_ms: u64, now_unix_ms: u64, max_age_ms: u64) -> (b: bool)
    ensures
        b == envelope_expired(created_at_unix_ms, now_unix_ms, max_age_ms),
{
    let age = if now_unix_ms >= created_at_unix_ms { now_unix_ms - created_at_unix_ms } else { 0 };
    let skew = if created_at_unix_ms >= now_unix_ms { created_at_unix_ms - now_unix_ms } else { 0 };
    age > max_age_ms || skew > max_age_ms
}

/// Counts one scanned queue entry, refusing beyond `MAX_QUEUE_SCAN_ENTRIES`.
pub fn account_scan_entry(scanned: &mut usize) -> (r: Result<()>)
    ensures
        *final(scanned) == (if *old(scanned) == usize::MAX { usize::MAX } else { (*old(scanned) + 1) as usize }),
        r is Ok <==> *final(scanned) <= MAX_QUEUE_SCAN_ENTRIES,
        r matches Err(e) ==> e matches ShphError::ResourceExhausted(m) && m@
            == "file adapter queue contains too many entries to scan safely"@,
{
    *scanned = if *scanned == usize::MAX { usize::MAX } else { *scanned + 1 };
    if *scanned > MAX_QUEUE_SCAN_ENTRIES {
        return Err(ShphError::ResourceExhausted(msg("file adapter queue contains too many entries to scan safely")));
    }
    Ok(())
}

/// Counts scanned bytes, refusing beyond `MAX_QUEUE_SCAN_BYTES`.
pub fn account_scan_bytes(scanned_bytes: &mut u64, bytes: u64) -> (r: Result<()>)
    ensures
        *final(scanned_bytes) == crate::standards::sat_add(*old(scanned_bytes), bytes),
        r is Ok <==> *final(scanned_bytes) <= MAX_QUEUE_SCAN_BYTES,
        r matches Err(e) ==> e matches ShphError::ResourceExhausted(m) && m@ == "file adapter scan byte budget exhausted"@,
{
    *scanned_bytes = crate::standards::sat_add_u64(*scanned_bytes, bytes);
    if *scanned_bytes > MAX_QUEUE_SCAN_BYTES {
        return Err(ShphError::ResourceExhausted(msg("file adapter scan byte budget exhausted")));
    }
    Ok(())
}

/// `a + b`, saturating at `usize::MAX`.
pub open spec fn sat_add_usize(a: int, b: int) -> int {
    if a + b > usize::MAX {
        usize::MAX as int
    } else {
        a + b
    }
}

/// Length of the padded base64 encoding of `n` bytes, `usize::MAX` when it
/// does not fit.
pub open spec fn b64_len(n: int) -> int {
    if n + 2 > usize::MAX || (n + 2) / 3 * 4 > usize::MAX {
        usize::MAX as int
    } else {
        (n + 2) / 3 * 4
    }
}

/// Size of a file-adapter envelope around `plaintext` bytes, given the
/// envelope's fixed size.
pub open spec fn envelope_size(plaintext: int, fixed: int) -> int {
    sat_add_usize(fixed, b64_len(sat_add_usize(plaintext, SHROUD_AEAD_OVERHEAD as int)))
}

/// The byte bound as a `usize`, `usize::MAX` when it does not fit.
pub open spec fn bound_as_usize(max_file_bytes: u64) -> int {
    if max_file_bytes > usize::MAX {
        usize::MAX as int
    } else {
        max_file_bytes as int
    }
}

/// Length of the padded base64 encoding of `bytes` bytes.
pub fn base64_encoded_len(bytes: usize) -> (r: usize)
    ensures
        r == b64_len(bytes as int),
{
    if bytes > usize::MAX - 2 {
        return usize::MAX;
    }
    let groups = (bytes + 2) / 3;
    if groups > usize::MAX / 4 {
        return usize::MAX;
    }
    groups * 4
}

proof fn lemma_b64_len_monotonic(a: int, b: int)
    requires
        0 <= a <= b,
    ensures
        b64_len(a) <= b64_len(b),
{
    if a + 2 <= usize::MAX && b + 2 <= usize::MAX {
        vstd::arithmetic::div_mod::lemma_div_is_ordered(a + 2, b + 2, 3);
    }
    assert((a + 2) / 3 * 4 <= (b + 2) / 3 * 4 || b + 2 > usize::MAX) by (nonlinear_arith)
        requires
            a <= b,
            a + 2 <= usize::MAX && b + 2 <= usize::MAX ==> (a + 2) / 3 <= (b + 2) / 3,
    ;
}

proof fn lemma_envelope_size_monotonic(a: int, b: int, fixed: int)
    requires
        0 <= a <= b,
    ensures
        envelope_size(a, fixed) <= envelope_size(b, fixed),
{
    lemma_b64_len_monotonic(sat_add_usize(a, SHROUD_AEAD_OVERHEAD as int), sat_add_usize(b, SHROUD_AEAD_OVERHEAD as int));
}

/// The largest plaintext whose file-adapter envelope fits in
/// `max_file_bytes`, given the envelope's fixed size; 0 when nothing fits.
pub fn max_plaintext_for_file_adapter(max_file_bytes: u64, fixed_envelope_bytes: usize) -> (r: usize)
    ensures
        r <= bound_as_usize(max_file_bytes),
        r > 0 ==> envelope_size(r as int, fixed_envelope_bytes as int) <= bound_as_usize(max_file_bytes),
        forall|q: int| r < q <= bound_as_usize(max_file_bytes) ==> envelope_size(q, fixed_envelope_bytes as int)
            > bound_as_usize(max_file_bytes),
{
    let bound: usize = if max_file_bytes > usize::MAX as u64 { usize::MAX } else { max_file_bytes as usize };
    let ghost fixed = fixed_envelope_bytes as int;
    if fixed_envelope_bytes > bound {
        assert forall|q: int| 0 < q <= bound implies envelope_size(q, fixed) > bound by {}
        return 0;
    }
    let mut low: usize = 0;
    let mut high: usize = bound;
    while low < high
        invariant
            low <= high <= bound,
            bound == bound_as_usize(max_file_bytes),
            fixed == fixed_envelope_bytes as int,
            low > 0 ==> envelope_size(low as int, fixed) <= bound,
            forall|q: int| high < q <= bound ==> envelope_size(q, fixed) > bound,
        decreases high - low,
    {
        let span = high - low;
        let candidate = low + (span / 2 + span % 2);
        let encrypted = if candidate > usize::MAX - SHROUD_AEAD_OVERHEAD { usize::MAX } else { candidate + SHROUD_AEAD_OVERHEAD };
        let encoded = base64_encoded_len(encrypted);
        let total = if fixed_envelope_bytes > usize::MAX - encoded { usize::MAX } else { fixed_envelope_bytes + encoded };
        assert(total == envelope_size(candidate as int, fixed));
        if total <= bound {
            low = candidate;
        } else {
            assert forall|q: int| candidate - 1 < q <= bound implies envelope_size(q, fixed) > bound by {
                lemma_envelope_size_monotonic(candidate as int, q, fixed);
            }
            high = candidate - 1;
        }
    }
    low
}

/// Refuses a file-adapter plaintext beyond the capacity of the envelope
/// bound.
pub fn validate_file_adapter_payload(payload: &[u8], max_payload_bytes: usize, max_file_bytes: u64) -> (r: Result<()>)
    ensures
        r is Ok <==> payload@.len() <= max_payload_bytes,
        r matches Err(e) ==> e is Protocol,
{
    if payload.len() > max_payload_bytes {
        let mut text = msg("file-adapter plaintext payload exceeds the ");
        crate::text::append_decimal(&mut text, max_payload_bytes as u64);
        text.append("-byte capacity of the configured ");
        crate::text::append_decimal(&mut text, max_file_bytes);
        text.append("-byte envelope bound");
        return Err(ShphError::Protocol(text));
    }
    Ok(())
}

/// Total byte length of metadata values.
pub open spec fn metadata_len(m: Seq<&str>) -> int
    decreases m.len(),
{
    if m.len() == 0 {
        0
    } else {
        metadata_len(m.drop_last()) + m.last().spec_bytes().len()
    }
}

/// Memory a file-adapter candidate costs: a fixed 128 bytes, its path text
/// and its metadata values.
pub open spec fn candidate_cost(path_len: int, m: Seq<&str>) -> int {
    sat_add_usize(128, sat_add_usize(path_len, metadata_len(m)))
}

/// Charges a candidate's memory, given its path text and metadata values,
/// against the scan's budget: metadata values over 1 KiB are refused, and
/// so is a total beyond `MAX_QUEUE_CANDIDATE_MEMORY`.
pub fn account_candidate_memory(candidate_memory: &mut usize, path: &str, metadata: &[&str]) -> (r: Result<()>)
    requires
        metadata@.len() * MAX_ADAPTER_METADATA_BYTES <= usize::MAX,
    ensures
        (exists|i: int| 0 <= i < metadata@.len() && (#[trigger] metadata@[i]).spec_bytes().len() > MAX_ADAPTER_METADATA_BYTES) ==> (r matches Err(
            e,
        ) && e is Protocol && *final(candidate_memory) == *old(candidate_memory)),
        (forall|i: int| 0 <= i < metadata@.len() ==> (#[trigger] metadata@[i]).spec_bytes().len() <= MAX_ADAPTER_METADATA_BYTES) ==> {
            &&& *final(candidate_memory) == sat_add_usize(*old(candidate_memory) as int, candidate_cost(path.spec_bytes().len() as int, metadata@))
            &&& (r is Ok <==> *final(candidate_memory) <= MAX_QUEUE_CANDIDATE_MEMORY)
            &&& (r matches Err(e) ==> e is ResourceExhausted)
        },
{
    let mut total: usize = 0;
    let mut i: usize = 0;
    while i < metadata.len()
        invariant
            i <= metadata@.len(),
            metadata@.len() * MAX_ADAPTER_METADATA_BYTES <= usize::MAX,
            forall|j: int| 0 <= j < i ==> (#[trigger] metadata@[j]).spec_bytes().len() <= MAX_ADAPTER_METADATA_BYTES,
            total == metadata_len(metadata@.take(i as int)),
            total <= i * MAX_ADAPTER_METADATA_BYTES,
        decreases metadata@.len() - i,
    {
        let value = metadata[i];
        let n = value.as_bytes().len();
        proof {
            assert(metadata@.take(i + 1).drop_last() =~= metadata@.take(i as int));
            assert(metadata@.take(i + 1).last() == metadata@[i as int]);
        }
        if n > MAX_ADAPTER_METADATA_BYTES {
            return Err(ShphError::Protocol(msg("file adapter envelope metadata exceeds safety bounds")));
        }
        assert((i + 1) * MAX_ADAPTER_METADATA_BYTES <= usize::MAX) by (nonlinear_arith)
            requires
                i < metadata@.len(),
                metadata@.len() * MAX_ADAPTER_METADATA_BYTES <= usize::MAX,
        ;
        assert((i + 1) * MAX_ADAPTER_METADATA_BYTES == i * MAX_ADAPTER_METADATA_BYTES + MAX_ADAPTER_METADATA_BYTES) by (nonlinear_arith);
        total = total + n;
        i = i + 1;
    }
    proof {
        assert(metadata@.take(metadata@.len() as int) =~= metadata@);
    }
    let path_len = path.as_bytes().len();
    let inner = if path_len > usize::MAX - total { usize::MAX } else { path_len + total };
    let cost = if inner > usize::MAX - 128 { usize::MAX } else { 128 + inner };
    *candidate_memory = if *candidate_memory > usize::MAX - cost { usize::MAX } else { *candidate_memory + cost };
    if *candidate_memory > MAX_QUEUE_CANDIDATE_MEMORY {
        return Err(ShphError::ResourceExhausted(msg("file adapter candidate memory budget exhausted")));
    }
    Ok(())
}

/// The line without its trailing newline and carriage-return bytes.
pub open spec fn strip_line_end(s: Seq<u8>) -> Seq<u8>
    decreases s.len(),
{
    if s.len() > 0 && (s.last() == 10u8 || s.last() == 13u8) {
        strip_line_end(s.drop_last())
    } else {
        s
    }
}

/// Progress of reading one newline-terminated handshake line.
#[derive(Debug)]
pub enum LineProgress {
    Pending,
    Line(Vec<u8>),
}

/// Reads a handshake line one byte at a time, so that bytes a peer sends
/// after the line stay unread; the line may hold at most `max_bytes`
/// bytes besides its line ending.
#[derive(Debug)]
pub struct HelloLineReader {
    buf: Vec<u8>,
    max_bytes: usize,
}

impl HelloLineReader {
    /// The bytes read so far.
    pub closed spec fn buffered(&self) -> Seq<u8> {
        self.buf@
    }

    /// The longest line accepted.
    pub closed spec fn limit(&self) -> nat {
        self.max_bytes as nat
    }

    /// A reader that has read nothing.
    pub fn new(max_bytes: usize) -> (r: Self)
        ensures
            r.buffered() == Seq::<u8>::empty(),
            r.limit() == max_bytes,
    {
        HelloLineReader { buf: Vec::new(), max_bytes }
    }

    /// Takes the next byte of the stream. A newline ends the line, which
    /// is returned without its line ending; a line that would pass
    /// `max_bytes` plus one byte, or whose text exceeds `max_bytes`, is
    /// refused.
    pub fn push_byte(&mut self, byte: u8) -> (r: Result<LineProgress>)
        ensures
            final(self).limit() == old(self).limit(),
            old(self).buffered().len() >= sat_add_usize(old(self).limit() as int, 1) ==> (r matches Err(
                ShphError::Protocol(m),
            ) && m@ == "hello exceeds size limit"@),
            old(self).buffered().len() < sat_add_usize(old(self).limit() as int, 1) ==> {
                let line = old(self).buffered().push(byte);
                &&& final(self).buffered() == line
                &&& byte != 10u8 ==> (r matches Ok(LineProgress::Pending))
                &&& byte == 10u8 && strip_line_end(line).len() > old(self).limit() ==> (r matches Err(
                    ShphError::Protocol(m),
                ) && m@ == "hello exceeds size limit"@)
                &&& byte == 10u8 && strip_line_end(line).len() <= old(self).limit() ==> (r matches Ok(
                    LineProgress::Line(v),
                ) && v@ == strip_line_end(line))
            },
    {
        let cap = if self.max_bytes == usize::MAX { usize::MAX } else { self.max_bytes + 1 };
        if self.buf.len() >= cap {
            return Err(ShphError::Protocol(msg("hello exceeds size limit")));
        }
        self.buf.push(byte);
        if byte != 10 {
            return Ok(LineProgress::Pending);
        }
        let ghost line = self.buf@;
        let mut out: Vec<u8> = Vec::new();
        let mut n = self.buf.len();
        assert(line.take(n as int) =~= line);
        while n > 0 && (self.buf[n - 1] == 10 || self.buf[n - 1] == 13)
            invariant
                n <= self.buf@.len(),
                self.buf@ == line,
                strip_line_end(line) == strip_line_end(line.take(n as int)),
            decreases n,
        {
            assert(line.take(n as int).drop_last() =~= line.take(n - 1));
            n = n - 1;
        }
        proof {
            let t = line.take(n as int);
            if n > 0 {
                assert(t.last() == line[n - 1]);
            }
            assert(strip_line_end(t) == t);
        }
        let mut i: usize = 0;
        while i < n
            invariant
                i <= n <= self.buf@.len(),
                self.buf@ == line,
                out@ == line.take(i as int),
            decreases n - i,
        {
            out.push(self.buf[i]);
            i = i + 1;
            assert(out@ =~= line.take(i as int));
        }
        if out.len() > self.max_bytes {
            return Err(ShphError::Protocol(msg("hello exceeds size limit")));
        }
        Ok(LineProgress::Line(out))
    }

    /// The error for a stream that ended before the line did: a closed
    /// connection when nothing was read, a truncated hello otherwise.
    pub fn end_of_stream(&self) -> (e: ShphError)
        ensures
            self.buffered().len() == 0 ==> e is ConnectionClosed,
            self.buffered().len() > 0 ==> (e matches ShphError::Protocol(m) && m@ == "truncated hello"@),
    {
        if self.buf.len() == 0 {
            ShphError::ConnectionClosed
        } else {
            ShphError::Protocol(msg("truncated hello"))
        }
    }
}

/// The kinds of I/O failure the transports tell apart.
#[derive(Debug, Clone, Copy, PartialEq, Eq, Structural)]
pub enum IoFailureKind {
    TimedOut,
    WouldBlock,
    UnexpectedEof,
    BrokenPipe,
    ConnectionAborted,
    ConnectionReset,
    NotConnected,
    Other,
}

/// How an I/O failure is reported: a timeout, a closed connection, or an
/// I/O error carrying the failure's text.
pub open spec fn io_failure_reported(kind: IoFailureKind, text: Seq<char>, e: ShphError) -> bool {
    match kind {
        IoFailureKind::TimedOut | IoFailureKind::WouldBlock => e is Timeout,
        IoFailureKind::Other => e matches ShphError::Io(m) && m@ == text,
        _ => e is ConnectionClosed,
    }
}

/// Maps an I/O failure to the error the transports report.
pub fn map_io_error(kind: IoFailureKind, text: &str) -> (e: ShphError)
    ensures
        io_failure_reported(kind, text@, e),
{
    match kind {
        IoFailureKind::TimedOut | IoFailureKind::WouldBlock => ShphError::Timeout,
        IoFailureKind::Other => ShphError::Io(msg(text)),
        _ => ShphError::ConnectionClosed,
    }
}

} // verus!
