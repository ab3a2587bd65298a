//! Bounded Shroud 2.0 lab morphology for authenticated QUIC datagrams.
//!
//! The envelope gives experiments an explicit, measurable shape: payload
//! size classes with padding, length-prefixed message batches and bounded
//! inter-frame delay. It does not forge browser fingerprints and does not
//! replace QUIC's congestion control or loss recovery. Durations and clock
//! readings are nanoseconds.

use vstd::prelude::*;
use crate::obfuscation::os_random_bytes;

use crate::error::{msg, Result, ShphError};
use crate::wire::{be16_bytes, be16_value};

verus! {

/// Size of the envelope header: magic, version, payload length, datagram size.
pub const MORPHOLOGY_HEADER_BYTES: usize = 7;

/// Envelope version.
pub const MORPHOLOGY_VERSION: u8 = 1;

/// Largest datagram the envelope describes.
pub const MAX_MORPHOLOGY_DATAGRAM_BYTES: usize = 65535;

/// Size of each message's length prefix in a batch.
pub const BATCH_MESSAGE_LENGTH_BYTES: usize = 2;

/// Largest number of messages in one batch.
pub const MAX_BATCH_MESSAGES: usize = 32;

/// Longest batch wait, in nanoseconds (one second).
pub const MAX_BATCH_WAIT_NANOS: u64 = 1_000_000_000;

/// Largest batch payload: the largest datagram less the header.
pub const MAX_BATCH_PAYLOAD_BYTES: usize = 65528;

/// The envelope magic, `S2`.
pub open spec fn morphology_magic() -> Seq<u8> {
    seq![0x53u8, 0x32u8]
}

/// Whether a path MTU is acceptable.
pub open spec fn path_mtu_ok(path_mtu: nat) -> bool {
    7 <= path_mtu <= 65535
}

/// The message of the error for an unacceptable path MTU.
pub open spec fn path_mtu_message() -> Seq<char> {
    "morphology path MTU must be between 7 and 65535 bytes"@
}

/// Refuses a path MTU outside `MORPHOLOGY_HEADER_BYTES` and
/// `MAX_MORPHOLOGY_DATAGRAM_BYTES`.
pub fn validate_path_mtu(path_mtu: usize) -> (r: Result<()>)
    ensures
        path_mtu_ok(path_mtu as nat) <==> r is Ok,
        !path_mtu_ok(path_mtu as nat) ==> (r matches Err(ShphError::Config(m)) && m@ == path_mtu_message()),
{
    if path_mtu < MORPHOLOGY_HEADER_BYTES || path_mtu > MAX_MORPHOLOGY_DATAGRAM_BYTES {
        return Err(ShphError::Config(msg("morphology path MTU must be between 7 and 65535 bytes")));
    }
    Ok(())
}

// ---------------------------------------------------------------------------
// Datagram envelope.
// ---------------------------------------------------------------------------

/// The envelope header for a payload length and a datagram size.
pub open spec fn datagram_header(payload_len: nat, size: nat) -> Seq<u8> {
    morphology_magic().push(MORPHOLOGY_VERSION) + be16_bytes(payload_len as u16) + be16_bytes(size as u16)
}

/// Why `encode_datagram` refuses a request, if it does.
pub open spec fn datagram_request_error(payload_len: nat, target_size: nat, path_mtu: nat) -> Option<Seq<char>> {
    if !path_mtu_ok(path_mtu) {
        Some(path_mtu_message())
    } else if payload_len == 0 {
        Some("morphology payload must not be empty"@)
    } else if target_size > path_mtu || target_size > 65535 {
        Some("morphology target exceeds negotiated datagram limit"@)
    } else if payload_len + 7 > usize::MAX {
        Some("morphology payload length overflow"@)
    } else if target_size < payload_len + 7 || payload_len > 0xffff {
        Some("morphology target is smaller than the payload"@)
    } else {
        None
    }
}

/// A datagram that encodes a payload at a target size: header, payload,
/// then padding up to the target size.
pub open spec fn is_datagram_of(payload: Seq<u8>, target_size: nat, datagram: Seq<u8>) -> bool {
    &&& datagram.len() == target_size
    &&& 7 + payload.len() <= target_size
    &&& datagram.subrange(0, 7 + payload.len() as int) == datagram_header(payload.len(), target_size) + payload
}

/// An error with the given message: a configuration error when the path
/// MTU is unacceptable, a protocol error otherwise.
pub open spec fn datagram_error_matches(e: ShphError, path_mtu: nat, m: Seq<char>) -> bool {
    if !path_mtu_ok(path_mtu) {
        e matches ShphError::Config(t) && t@ == m
    } else {
        e matches ShphError::Protocol(t) && t@ == m
    }
}

/// Checks a datagram request: a valid path MTU, a non-empty payload that a
/// u16 can count, and a target size within the path MTU that holds the
/// header and the payload.
pub fn check_datagram_request(payload_len: usize, target_size: usize, path_mtu: usize) -> (r: Result<()>)
    ensures
        r is Ok <==> datagram_request_error(payload_len as nat, target_size as nat, path_mtu as nat) is None,
        r matches Err(e) ==> datagram_error_matches(
            e,
            path_mtu as nat,
            datagram_request_error(payload_len as nat, target_size as nat, path_mtu as nat)->0,
        ),
{
    proof {
        reveal_strlit("morphology path MTU must be between 7 and 65535 bytes");
        reveal_strlit("morphology payload must not be empty");
        reveal_strlit("morphology target exceeds negotiated datagram limit");
        reveal_strlit("morphology target is smaller than the payload");
    }
    match validate_path_mtu(path_mtu) {
        Ok(()) => {},
        Err(e) => return Err(e),
    }
    if payload_len == 0 {
        return Err(ShphError::Protocol(msg("morphology payload must not be empty")));
    }
    if target_size > path_mtu || target_size > MAX_MORPHOLOGY_DATAGRAM_BYTES {
        return Err(ShphError::Protocol(msg("morphology target exceeds negotiated datagram limit")));
    }
    if payload_len > usize::MAX - MORPHOLOGY_HEADER_BYTES {
        return Err(ShphError::Protocol(msg("morphology payload length overflow")));
    }
    if target_size < payload_len + MORPHOLOGY_HEADER_BYTES || payload_len > 0xffff {
        return Err(ShphError::Protocol(msg("morphology target is smaller than the payload")));
    }
    Ok(())
}

/// Encodes a payload at a target size with the given padding bytes after
/// it. The padding supplies at least the bytes between the payload and the
/// target size; the first of them are used.
pub fn encode_datagram_with_padding(payload: &[u8], target_size: usize, path_mtu: usize, padding: &[u8]) -> (r:
    Result<Vec<u8>>)
    requires
        padding@.len() >= target_size,
    ensures
        r is Ok <==> datagram_request_error(payload@.len(), target_size as nat, path_mtu as nat) is None,
        r matches Err(e) ==> datagram_error_matches(
            e,
            path_mtu as nat,
            datagram_request_error(payload@.len(), target_size as nat, path_mtu as nat)->0,
        ),
        r matches Ok(d) ==> is_datagram_of(payload@, target_size as nat, d@) && d@.subrange(
            7 + payload@.len() as int,
            target_size as int,
        ) == padding@.take(target_size - 7 - payload@.len()),
{
    match check_datagram_request(payload.len(), target_size, path_mtu) {
        Ok(()) => {},
        Err(e) => return Err(e),
    }
    let minimum = payload.len() + MORPHOLOGY_HEADER_BYTES;
    let mut d: Vec<u8> = Vec::new();
    d.push(0x53);
    d.push(0x32);
    d.push(MORPHOLOGY_VERSION);
    crate::wire::push_be16(&mut d, payload.len() as u16);
    crate::wire::push_be16(&mut d, target_size as u16);
    crate::wire::push_bytes(&mut d, payload);
    let ghost head = d@;
    assert(head =~= datagram_header(payload@.len(), target_size as nat) + payload@);
    let pad = target_size - minimum;
    crate::wire::push_bytes(&mut d, &padding[0..pad]);
    assert(d@.subrange(0, 7 + payload@.len() as int) =~= head);
    assert(d@.subrange(7 + payload@.len() as int, target_size as int) =~= padding@.take(pad as int));
    Ok(d)
}

/// Encodes an authenticated-transport payload with random outer padding up
/// to the target size. The QUIC layer encrypts the whole datagram, so the
/// padding carries no unauthenticated control data.
pub fn encode_datagram(payload: &[u8], target_size: usize, path_mtu: usize) -> (r: Result<Vec<u8>>)
    ensures
        datagram_request_error(payload@.len(), target_size as nat, path_mtu as nat) is Some ==> (r matches Err(e)
            && datagram_error_matches(
            e,
            path_mtu as nat,
            datagram_request_error(payload@.len(), target_size as nat, path_mtu as nat)->0,
        )),
        r matches Ok(d) ==> is_datagram_of(payload@, target_size as nat, d@),
        datagram_request_error(payload@.len(), target_size as nat, path_mtu as nat) is None ==> (r is Ok || (r matches Err(
            ShphError::Crypto(m),
        ) && m@ == "OS randomness unavailable"@)),
{
    match check_datagram_request(payload.len(), target_size, path_mtu) {
        Ok(()) => {},
        Err(e) => return Err(e),
    }
    let padding = match os_random_bytes(target_size) {
        Some(p) => p,
        None => return Err(ShphError::Crypto(msg("OS randomness unavailable"))),
    };
    encode_datagram_with_padding(payload, target_size, path_mtu, padding.as_slice())
}

/// Why `decode_datagram` refuses a datagram, if it does.
pub open spec fn datagram_decode_error(d: Seq<u8>, path_mtu: nat) -> Option<Seq<char>> {
    if !path_mtu_ok(path_mtu) {
        Some(path_mtu_message())
    } else if d.len() < 7 || d.len() > path_mtu {
        Some("morphology datagram length is outside the negotiated limit"@)
    } else if d[0] != 0x53 || d[1] != 0x32 || d[2] != MORPHOLOGY_VERSION {
        Some("morphology envelope version mismatch"@)
    } else if be16_value(d[5], d[6]) != d.len() {
        Some("morphology datagram size does not match its envelope"@)
    } else if be16_value(d[3], d[4]) == 0 || 7 + be16_value(d[3], d[4]) > d.len() {
        Some("morphology payload length is invalid"@)
    } else {
        None
    }
}

/// The payload of an accepted datagram.
pub open spec fn datagram_payload(d: Seq<u8>) -> Seq<u8> {
    d.subrange(7, 7 + be16_value(d[3], d[4]))
}

/// Checks the envelope of an authenticated datagram and returns its payload.
pub fn decode_datagram(datagram: &[u8], path_mtu: usize) -> (r: Result<Vec<u8>>)
    ensures
        r is Ok <==> datagram_decode_error(datagram@, path_mtu as nat) is None,
        r matches Ok(p) ==> p@ == datagram_payload(datagram@),
        r matches Err(e) ==> datagram_error_matches(e, path_mtu as nat, datagram_decode_error(datagram@, path_mtu as nat)->0),
{
    proof {
        reveal_strlit("morphology path MTU must be between 7 and 65535 bytes");
        reveal_strlit("morphology datagram length is outside the negotiated limit");
        reveal_strlit("morphology envelope version mismatch");
        reveal_strlit("morphology datagram size does not match its envelope");
        reveal_strlit("morphology payload length is invalid");
    }
    match validate_path_mtu(path_mtu) {
        Ok(()) => {},
        Err(e) => return Err(e),
    }
    if datagram.len() < MORPHOLOGY_HEADER_BYTES || datagram.len() > path_mtu {
        return Err(ShphError::Protocol(msg("morphology datagram length is outside the negotiated limit")));
    }
    if datagram[0] != 0x53 || datagram[1] != 0x32 || datagram[2] != MORPHOLOGY_VERSION {
        return Err(ShphError::Protocol(msg("morphology envelope version mismatch")));
    }
    let payload_len: usize = (datagram[3] as usize) * 256 + datagram[4] as usize;
    let declared_size: usize = (datagram[5] as usize) * 256 + datagram[6] as usize;
    if declared_size != datagram.len() {
        return Err(ShphError::Protocol(msg("morphology datagram size does not match its envelope")));
    }
    if payload_len == 0 || MORPHOLOGY_HEADER_BYTES + payload_len > datagram.len() {
        return Err(ShphError::Protocol(msg("morphology payload length is invalid")));
    }
    let end = MORPHOLOGY_HEADER_BYTES + payload_len;
    let out = crate::wire::copy_bytes(&datagram[MORPHOLOGY_HEADER_BYTES..end]);
    Ok(out)
}

/// Round trip: a datagram that encodes a payload within an acceptable path
/// MTU decodes to that payload.
pub proof fn lemma_datagram_round_trip(payload: Seq<u8>, target_size: nat, path_mtu: nat, datagram: Seq<u8>)
    requires
        datagram_request_error(payload.len(), target_size, path_mtu) is None,
        is_datagram_of(payload, target_size, datagram),
    ensures
        datagram_decode_error(datagram, path_mtu) is None,
        datagram_payload(datagram) == payload,
{
    let h = datagram.subrange(0, 7 + payload.len() as int);
    assert(h == datagram_header(payload.len(), target_size) + payload);
    assert(datagram[0] == h[0] && datagram[1] == h[1] && datagram[2] == h[2]);
    assert(datagram[3] == h[3] && datagram[4] == h[4] && datagram[5] == h[5] && datagram[6] == h[6]);
    assert(be16_value(datagram[3], datagram[4]) == payload.len());
    assert(be16_value(datagram[5], datagram[6]) == target_size);
    assert forall|i: int| 0 <= i < payload.len() implies datagram_payload(datagram)[i] == payload[i] by {
        assert(h[7 + i] == payload[i]);
    }
    assert(datagram_payload(datagram) =~= payload);
}

// ---------------------------------------------------------------------------
// Message batches.
// ---------------------------------------------------------------------------

/// Each message preceded by its length as a big-endian u16.
pub open spec fn batch_encoding(msgs: Seq<Seq<u8>>) -> Seq<u8>
    decreases msgs.len(),
{
    if msgs.len() == 0 {
        Seq::empty()
    } else {
        batch_encoding(msgs.drop_last()) + be16_bytes(msgs.last().len() as u16) + msgs.last()
    }
}

/// Why a batch's messages are refused, in message order, if they are.
pub open spec fn batch_message_error(msgs: Seq<Seq<u8>>, limit: nat) -> Option<Seq<char>>
    decreases msgs.len(),
{
    if msgs.len() == 0 {
        None
    } else if batch_message_error(msgs.drop_last(), limit) is Some {
        batch_message_error(msgs.drop_last(), limit)
    } else if msgs.last().len() == 0 {
        Some("morphology batch messages must not be empty"@)
    } else if msgs.last().len() > 0xffff {
        Some("morphology batch message exceeds the length field"@)
    } else if batch_encoding(msgs.drop_last()).len() + 2 + msgs.last().len() > limit {
        Some("morphology batch exceeds the negotiated datagram limit"@)
    } else {
        None
    }
}

/// Why `encode_batch_payload` refuses a batch, if it does.
pub open spec fn batch_encode_error(msgs: Seq<Seq<u8>>, path_mtu: nat) -> Option<Seq<char>> {
    if !path_mtu_ok(path_mtu) {
        Some(path_mtu_message())
    } else if msgs.len() == 0 {
        Some("morphology batch must contain at least one message"@)
    } else if msgs.len() > MAX_BATCH_MESSAGES {
        Some("morphology batch exceeds the 32-message limit"@)
    } else {
        batch_message_error(msgs, (path_mtu - 7) as nat)
    }
}

/// The views of a list of byte vectors.
pub open spec fn byte_views(v: Seq<Vec<u8>>) -> Seq<Seq<u8>> {
    v.map_values(|m: Vec<u8>| m@)
}

/// Encodes length-prefixed application messages for one datagram, bounded
/// by the path MTU and `MAX_BATCH_MESSAGES`.
pub fn encode_batch_payload(messages: &[Vec<u8>], path_mtu: usize) -> (r: Result<Vec<u8>>)
    ensures
        r is Ok <==> batch_encode_error(byte_views(messages@), path_mtu as nat) is None,
        r matches Ok(p) ==> p@ == batch_encoding(byte_views(messages@)),
        r matches Err(e) ==> datagram_error_matches(
            e,
            path_mtu as nat,
            batch_encode_error(byte_views(messages@), path_mtu as nat)->0,
        ),
{
    match validate_path_mtu(path_mtu) {
        Ok(()) => {},
        Err(e) => return Err(e),
    }
    if messages.len() == 0 {
        return Err(ShphError::Protocol(msg("morphology batch must contain at least one message")));
    }
    if messages.len() > MAX_BATCH_MESSAGES {
        return Err(ShphError::Protocol(msg("morphology batch exceeds the 32-message limit")));
    }
    let limit = path_mtu - MORPHOLOGY_HEADER_BYTES;
    let ghost all = byte_views(messages@);
    let mut payload: Vec<u8> = Vec::new();
    let mut i: usize = 0;
    while i < messages.len()
        invariant
            all == byte_views(messages@),
            limit == path_mtu - 7,
            7 <= path_mtu <= 65535,
            1 <= messages@.len() <= MAX_BATCH_MESSAGES,
            i <= messages@.len(),
            payload@ == batch_encoding(all.take(i as int)),
            batch_message_error(all.take(i as int), limit as nat) is None,
            payload@.len() <= limit,
        decreases messages@.len() - i,
    {
        let m = &messages[i];
        proof {
            assert(all.take(i + 1).drop_last() =~= all.take(i as int));
            assert(all.take(i + 1).last() == m@);
            if batch_message_error(all.take(i + 1), limit as nat) is Some {
                lemma_batch_error_prefix(all, i + 1, limit as nat);
            }
        }
        if m.len() == 0 {
            return Err(ShphError::Protocol(msg("morphology batch messages must not be empty")));
        }
        if m.len() > 0xffff {
            return Err(ShphError::Protocol(msg("morphology batch message exceeds the length field")));
        }
        if payload.len() + 2 + m.len() > limit {
            return Err(ShphError::Protocol(msg("morphology batch exceeds the negotiated datagram limit")));
        }
        crate::wire::push_be16(&mut payload, m.len() as u16);
        crate::wire::push_bytes(&mut payload, m.as_slice());
        i = i + 1;
    }
    assert(all.take(messages@.len() as int) =~= all);
    Ok(payload)
}

/// Splits a batch payload into its messages, from a message count.
pub open spec fn batch_decode(rest: Seq<u8>, count: nat) -> core::result::Result<Seq<Seq<u8>>, Seq<char>>
    decreases rest.len(),
{
    if rest.len() == 0 {
        Ok(Seq::empty())
    } else if count >= MAX_BATCH_MESSAGES {
        Err("morphology batch exceeds the 32-message limit"@)
    } else if rest.len() < 2 {
        Err("morphology batch has a truncated length prefix"@)
    } else if be16_value(rest[0], rest[1]) == 0 {
        Err("morphology batch contains an empty message"@)
    } else if 2 + be16_value(rest[0], rest[1]) > rest.len() {
        Err("morphology batch has a truncated message"@)
    } else {
        let l = be16_value(rest[0], rest[1]);
        match batch_decode(rest.skip(2 + l), count + 1) {
            Ok(t) => Ok(seq![rest.subrange(2, 2 + l)] + t),
            Err(e) => Err(e),
        }
    }
}

/// What `decode_batch_payload` yields for a payload.
pub open spec fn batch_payload_decode(p: Seq<u8>) -> core::result::Result<Seq<Seq<u8>>, Seq<char>> {
    if p.len() == 0 {
        Err("morphology batch payload must not be empty"@)
    } else if p.len() > MAX_BATCH_PAYLOAD_BYTES {
        Err("morphology batch payload exceeds the global envelope limit"@)
    } else {
        batch_decode(p, 0)
    }
}

/// Messages decoded so far, followed by the decoding of the rest.
pub open spec fn prepend_messages(
    done: Seq<Seq<u8>>,
    rest: core::result::Result<Seq<Seq<u8>>, Seq<char>>,
) -> core::result::Result<Seq<Seq<u8>>, Seq<char>> {
    match rest {
        Ok(t) => Ok(done + t),
        Err(e) => Err(e),
    }
}

/// Decodes length-prefixed application messages from an authenticated
/// batch payload.
pub fn decode_batch_payload(payload: &[u8]) -> (r: Result<Vec<Vec<u8>>>)
    ensures
        r is Ok <==> batch_payload_decode(payload@) is Ok,
        r matches Ok(ms) ==> byte_views(ms@) == batch_payload_decode(payload@)->Ok_0,
        r matches Err(e) ==> e matches ShphError::Protocol(m) && m@ == batch_payload_decode(payload@)->Err_0,
{
    if payload.len() == 0 {
        return Err(ShphError::Protocol(msg("morphology batch payload must not be empty")));
    }
    if payload.len() > MAX_BATCH_PAYLOAD_BYTES {
        return Err(ShphError::Protocol(msg("morphology batch payload exceeds the global envelope limit")));
    }
    let ghost p = payload@;
    let mut messages: Vec<Vec<u8>> = Vec::new();
    let mut offset: usize = 0;
    assert(p.skip(0) =~= p);
    assert(byte_views(messages@) =~= Seq::<Seq<u8>>::empty());
    while offset < payload.len()
        invariant
            p == payload@,
            p.len() <= MAX_BATCH_PAYLOAD_BYTES,
            offset <= p.len(),
            batch_decode(p, 0) == prepend_messages(
                byte_views(messages@),
                batch_decode(p.skip(offset as int), messages@.len()),
            ),
        decreases p.len() - offset,
    {
        let ghost rest = p.skip(offset as int);
        if messages.len() >= MAX_BATCH_MESSAGES {
            return Err(ShphError::Protocol(msg("morphology batch exceeds the 32-message limit")));
        }
        if payload.len() - offset < BATCH_MESSAGE_LENGTH_BYTES {
            return Err(ShphError::Protocol(msg("morphology batch has a truncated length prefix")));
        }
        assert(rest[0] == payload@[offset as int] && rest[1] == payload@[offset + 1]);
        let message_len: usize = (payload[offset] as usize) * 256 + payload[offset + 1] as usize;
        if message_len == 0 {
            return Err(ShphError::Protocol(msg("morphology batch contains an empty message")));
        }
        let start = offset + BATCH_MESSAGE_LENGTH_BYTES;
        if message_len > payload.len() - start {
            return Err(ShphError::Protocol(msg("morphology batch has a truncated message")));
        }
        let end = start + message_len;
        let message = crate::wire::copy_bytes(&payload[start..end]);
        proof {
            assert(rest.subrange(2, 2 + message_len as int) =~= p.subrange(start as int, end as int));
            assert(rest.skip(2 + message_len as int) =~= p.skip(end as int));
        }
        let ghost before = byte_views(messages@);
        messages.push(message);
        assert(byte_views(messages@) =~= before.push(message@));
        assert(before.push(message@) =~= before + seq![message@]);
        proof {
            let t = batch_decode(p.skip(end as int), messages@.len());
            if t is Ok {
                assert(before + (seq![message@] + t->Ok_0) =~= (before + seq![message@]) + t->Ok_0);
            }
        }
        offset = end;
    }
    proof {
        assert(p.skip(offset as int) =~= Seq::<u8>::empty());
        assert(byte_views(messages@) + Seq::<Seq<u8>>::empty() =~= byte_views(messages@));
    }
    Ok(messages)
}

proof fn lemma_batch_error_prefix(msgs: Seq<Seq<u8>>, k: int, limit: nat)
    requires
        0 <= k <= msgs.len(),
        batch_message_error(msgs.take(k), limit) is Some,
    ensures
        batch_message_error(msgs, limit) == batch_message_error(msgs.take(k), limit),
    decreases msgs.len() - k,
{
    if k == msgs.len() {
        assert(msgs.take(k) =~= msgs);
    } else {
        assert(msgs.drop_last().take(k) =~= msgs.take(k));
        lemma_batch_error_prefix(msgs.drop_last(), k, limit);
    }
}

proof fn lemma_batch_encoding_cons(m: Seq<u8>, rest: Seq<Seq<u8>>)
    ensures
        batch_encoding(seq![m] + rest) == be16_bytes(m.len() as u16) + m + batch_encoding(rest),
    decreases rest.len(),
{
    if rest.len() == 0 {
        assert(seq![m] + rest =~= seq![m]);
        assert(seq![m].drop_last() =~= Seq::<Seq<u8>>::empty());
        assert(batch_encoding(Seq::<Seq<u8>>::empty()) =~= Seq::<u8>::empty());
        assert(seq![m].last() == m);
        assert(batch_encoding(seq![m]) == batch_encoding(seq![m].drop_last()) + be16_bytes(m.len() as u16) + m);
        assert(batch_encoding(seq![m]) =~= be16_bytes(m.len() as u16) + m);
        assert(be16_bytes(m.len() as u16) + m + batch_encoding(rest) =~= be16_bytes(m.len() as u16) + m);
    } else {
        lemma_batch_encoding_cons(m, rest.drop_last());
        assert((seq![m] + rest).drop_last() =~= seq![m] + rest.drop_last());
        assert(batch_encoding(seq![m] + rest) =~= be16_bytes(m.len() as u16) + m + batch_encoding(rest));
    }
}

/// Batches that `encode_batch_payload` accepts: at most
/// `MAX_BATCH_MESSAGES` messages, each non-empty and countable by a u16.
pub open spec fn batch_messages_ok(msgs: Seq<Seq<u8>>) -> bool {
    &&& msgs.len() <= MAX_BATCH_MESSAGES
    &&& forall|i: int| 0 <= i < msgs.len() ==> 1 <= #[trigger] msgs[i].len() <= 0xffff
}

proof fn lemma_batch_decode_encoding(msgs: Seq<Seq<u8>>, count: nat)
    requires
        count + msgs.len() <= MAX_BATCH_MESSAGES,
        forall|i: int| 0 <= i < msgs.len() ==> 1 <= #[trigger] msgs[i].len() <= 0xffff,
    ensures
        batch_decode(batch_encoding(msgs), count) == Ok::<Seq<Seq<u8>>, Seq<char>>(msgs),
    decreases msgs.len(),
{
    if msgs.len() == 0 {
        assert(batch_encoding(msgs) =~= Seq::<u8>::empty());
        assert(msgs =~= Seq::<Seq<u8>>::empty());
    } else {
        let m = msgs[0];
        let tail = msgs.drop_first();
        assert(msgs =~= seq![m] + tail);
        lemma_batch_encoding_cons(m, tail);
        let e = batch_encoding(msgs);
        let h = be16_bytes(m.len() as u16);
        assert(e == h + m + batch_encoding(tail));
        assert(e[0] == h[0] && e[1] == h[1]);
        assert(be16_value(e[0], e[1]) == m.len());
        assert(e.subrange(2, 2 + m.len() as int) =~= m);
        assert(e.skip(2 + m.len() as int) =~= batch_encoding(tail));
        assert forall|i: int| 0 <= i < tail.len() implies 1 <= #[trigger] tail[i].len() <= 0xffff by {
            assert(tail[i] == msgs[i + 1]);
        }
        lemma_batch_decode_encoding(tail, count + 1);
        assert(seq![m] + tail =~= msgs);
    }
}

/// Round trip: a batch that `encode_batch_payload` accepts decodes, with
/// `decode_batch_payload`, to the same messages with the same boundaries.
pub proof fn lemma_batch_round_trip(msgs: Seq<Seq<u8>>, path_mtu: nat)
    requires
        batch_encode_error(msgs, path_mtu) is None,
    ensures
        batch_payload_decode(batch_encoding(msgs)) == Ok::<Seq<Seq<u8>>, Seq<char>>(msgs),
{
    lemma_batch_error_free(msgs, (path_mtu - 7) as nat);
    lemma_batch_decode_encoding(msgs, 0);
    assert(batch_encoding(msgs).len() > 0) by {
        assert(msgs.len() > 0);
        assert(msgs.last().len() >= 1);
    }
}

proof fn lemma_batch_error_free(msgs: Seq<Seq<u8>>, limit: nat)
    requires
        batch_message_error(msgs, limit) is None,
    ensures
        forall|i: int| 0 <= i < msgs.len() ==> 1 <= #[trigger] msgs[i].len() <= 0xffff,
        batch_encoding(msgs).len() <= limit,
    decreases msgs.len(),
{
    if msgs.len() > 0 {
        lemma_batch_error_free(msgs.drop_last(), limit);
        assert forall|i: int| 0 <= i < msgs.len() implies 1 <= #[trigger] msgs[i].len() <= 0xffff by {
            if i < msgs.len() - 1 {
                assert(msgs.drop_last()[i] == msgs[i]);
            }
        }
    }
}

// ---------------------------------------------------------------------------
// Batching policy and batcher.
// ---------------------------------------------------------------------------

/// Lab morphology profiles.
#[derive(Debug, Clone, Copy, PartialEq, Eq, Structural)]
pub enum MorphologyProfile {
    LowLatency,
    WebBrowsingLab,
    VideoStreamingLab,
    BulkLab,
}

/// The recommended message limit and wait bound (nanoseconds) of a profile.
pub open spec fn recommended_limits(p: MorphologyProfile) -> (nat, nat) {
    match p {
        MorphologyProfile::LowLatency => (4, 2_000_000),
        MorphologyProfile::WebBrowsingLab => (8, 10_000_000),
        MorphologyProfile::VideoStreamingLab => (8, 20_000_000),
        MorphologyProfile::BulkLab => (32, 50_000_000),
    }
}

/// Caller-selected batching limits for small application messages. The
/// wait bound is a flush deadline, not a delivery promise: the caller must
/// call [`MorphologyBatcher::flush_if_due`] from its event loop or timer.
#[derive(Debug, Clone, Copy, PartialEq, Eq, Structural)]
pub struct MorphologyBatchPolicy {
    max_messages: usize,
    max_wait: u64,
}

impl MorphologyBatchPolicy {
    /// The message-count limit.
    pub closed spec fn message_limit(self) -> nat {
        self.max_messages as nat
    }

    /// The wait bound, in nanoseconds.
    pub closed spec fn wait_limit(self) -> nat {
        self.max_wait as nat
    }

    #[verifier::type_invariant]
    spec fn inv(self) -> bool {
        1 <= self.max_messages <= MAX_BATCH_MESSAGES && self.max_wait <= MAX_BATCH_WAIT_NANOS
    }

    /// A policy; refused unless the message limit is between 1 and
    /// `MAX_BATCH_MESSAGES` and the wait is at most one second.
    pub fn new(max_messages: usize, max_wait: u64) -> (r: Result<Self>)
        ensures
            !(1 <= max_messages <= MAX_BATCH_MESSAGES) ==> (r matches Err(ShphError::Config(m)) && m@
                == "morphology batch message limit must be between 1 and 32"@),
            (1 <= max_messages <= MAX_BATCH_MESSAGES) && max_wait > MAX_BATCH_WAIT_NANOS ==> (r matches Err(
                ShphError::Config(m),
            ) && m@ == "morphology batch wait must not exceed 1000 milliseconds"@),
            (1 <= max_messages <= MAX_BATCH_MESSAGES) && max_wait <= MAX_BATCH_WAIT_NANOS ==> (r matches Ok(p)
                && p.message_limit() == max_messages && p.wait_limit() == max_wait),
    {
        if max_messages < 1 || max_messages > MAX_BATCH_MESSAGES {
            return Err(ShphError::Config(msg("morphology batch message limit must be between 1 and 32")));
        }
        if max_wait > MAX_BATCH_WAIT_NANOS {
            return Err(ShphError::Config(msg("morphology batch wait must not exceed 1000 milliseconds")));
        }
        Ok(MorphologyBatchPolicy { max_messages, max_wait })
    }

    /// Conservative lab defaults that bound the latency budget.
    pub fn recommended(profile: MorphologyProfile) -> (p: Self)
        ensures
            p.message_limit() == recommended_limits(profile).0,
            p.wait_limit() == recommended_limits(profile).1,
    {
        match profile {
            MorphologyProfile::LowLatency => MorphologyBatchPolicy { max_messages: 4, max_wait: 2_000_000 },
            MorphologyProfile::WebBrowsingLab => MorphologyBatchPolicy { max_messages: 8, max_wait: 10_000_000 },
            MorphologyProfile::VideoStreamingLab => MorphologyBatchPolicy {
                max_messages: 8,
                max_wait: 20_000_000,
            },
            MorphologyProfile::BulkLab => MorphologyBatchPolicy {
                max_messages: MAX_BATCH_MESSAGES,
                max_wait: 50_000_000,
            },
        }
    }

    /// The message-count limit.
    pub fn max_messages(self) -> (n: usize)
        ensures
            n == self.message_limit(),
            1 <= n <= MAX_BATCH_MESSAGES,
    {
        proof {
            use_type_invariant(self);
        }
        self.max_messages
    }

    /// The wait bound, in nanoseconds.
    pub fn max_wait(self) -> (w: u64)
        ensures
            w == self.wait_limit(),
            w <= MAX_BATCH_WAIT_NANOS,
    {
        proof {
            use_type_invariant(self);
        }
        self.max_wait
    }
}

impl Default for MorphologyBatchPolicy {
    fn default() -> (p: Self)
        ensures
            p.message_limit() == MAX_BATCH_MESSAGES,
            p.wait_limit() == MAX_BATCH_WAIT_NANOS,
    {
        MorphologyBatchPolicy { max_messages: MAX_BATCH_MESSAGES, max_wait: MAX_BATCH_WAIT_NANOS }
    }
}

/// Result of adding one application message to a bounded batch. When the
/// message does not fit the current batch, the batch is returned for sending
/// and the message starts the next one.
#[derive(Debug, PartialEq, Eq)]
pub enum MorphologyBatchPushResult {
    Buffered,
    Flush(Vec<Vec<u8>>),
}

/// Encoded size of a batch: each message with its two-byte length prefix.
pub open spec fn encoded_size(msgs: Seq<Seq<u8>>) -> nat
    decreases msgs.len(),
{
    if msgs.len() == 0 {
        0
    } else {
        encoded_size(msgs.drop_last()) + 2 + msgs.last().len()
    }
}

proof fn lemma_encoded_size_bound(msgs: Seq<Seq<u8>>)
    requires
        forall|i: int| 0 <= i < msgs.len() ==> #[trigger] msgs[i].len() <= MAX_BATCH_PAYLOAD_BYTES,
    ensures
        encoded_size(msgs) <= msgs.len() * 65530,
    decreases msgs.len(),
{
    if msgs.len() > 0 {
        assert forall|i: int| 0 <= i < msgs.drop_last().len() implies #[trigger] msgs.drop_last()[i].len()
            <= MAX_BATCH_PAYLOAD_BYTES by {
            assert(msgs.drop_last()[i] == msgs[i]);
        }
        lemma_encoded_size_bound(msgs.drop_last());
    }
}

/// Whether a batch started at `start` is due at `now` under a wait bound.
pub open spec fn due_at(start: Option<u64>, now: u64, wait: nat) -> bool {
    start matches Some(s) && (if now >= s { now - s } else { 0 }) >= wait
}

/// One successful `MorphologyBatcher::push` of `m`, as its contract states
/// it: the pending messages before and after, the batch it handed back, if
/// any, and the bounds the pending batch keeps.
pub open spec fn push_step(
    before: Seq<Seq<u8>>,
    m: Seq<u8>,
    flushed: Option<Seq<Seq<u8>>>,
    after: Seq<Seq<u8>>,
    limit: nat,
    path_mtu: nat,
) -> bool {
    &&& match flushed {
        Some(v) => v == before && before.len() > 0 && after == seq![m],
        None => after == before.push(m),
    }
    &&& after.len() <= limit
    &&& encoded_size(after) + 7 <= path_mtu
}

/// The batches handed back by a run of pushes, in order.
pub open spec fn emitted(flushed: Seq<Option<Seq<Seq<u8>>>>) -> Seq<Seq<u8>>
    decreases flushed.len(),
{
    if flushed.len() == 0 {
        Seq::empty()
    } else {
        emitted(flushed.drop_last()) + match flushed.last() {
            Some(v) => v,
            None => Seq::<Seq<u8>>::empty(),
        }
    }
}

/// Batching neither loses, duplicates nor reorders messages: after a run of
/// successful pushes into an empty batcher (one path MTU, no flush between),
/// the batches handed back followed by the pending messages are exactly the
/// messages pushed, in order; and every batch handed back holds between one
/// message and the policy's message limit, and fits one datagram.
pub proof fn lemma_batching_keeps_message_order(
    msgs: Seq<Seq<u8>>,
    states: Seq<Seq<Seq<u8>>>,
    flushed: Seq<Option<Seq<Seq<u8>>>>,
    limit: nat,
    path_mtu: nat,
)
    requires
        states.len() == msgs.len() + 1,
        flushed.len() == msgs.len(),
        states[0].len() == 0,
        forall|i: int| 0 <= i < msgs.len() ==> #[trigger] push_step(states[i], msgs[i], flushed[i], states[i + 1], limit, path_mtu),
    ensures
        emitted(flushed) + states.last() == msgs,
        forall|i: int| 0 <= i < flushed.len() && #[trigger] flushed[i] is Some ==> {
            let v = flushed[i]->0;
            &&& 1 <= v.len() <= limit
            &&& encoded_size(v) + 7 <= path_mtu
        },
    decreases msgs.len(),
{
    let n = msgs.len();
    if n == 0 {
        assert(emitted(flushed) + states.last() =~= msgs);
    } else {
        let m2 = msgs.drop_last();
        let s2 = states.drop_last();
        let f2 = flushed.drop_last();
        assert forall|i: int| 0 <= i < m2.len() implies #[trigger] push_step(s2[i], m2[i], f2[i], s2[i + 1], limit, path_mtu) by {
            assert(push_step(states[i], msgs[i], flushed[i], states[i + 1], limit, path_mtu));
        }
        lemma_batching_keeps_message_order(m2, s2, f2, limit, path_mtu);
        assert(push_step(states[n - 1], msgs[n - 1], flushed[n - 1], states[n as int], limit, path_mtu));
        assert(s2.last() == states[n - 1]);
        match flushed[n - 1] {
            Some(v) => {
                assert(emitted(flushed) == emitted(f2) + v);
                assert(emitted(f2) + v == m2);
                assert(msgs =~= m2.push(msgs[n - 1]));
                assert(states.last() == states[n as int]);
                assert(states[n as int] == seq![msgs[n - 1]]);
                assert(m2 + seq![msgs[n - 1]] =~= m2.push(msgs[n - 1]));
                let e = emitted(flushed);
                assert(e == emitted(f2) + v);
                assert(e + states.last() == (emitted(f2) + v) + seq![msgs[n - 1]]);
                assert(e + states.last() == m2 + seq![msgs[n - 1]]);
                assert(m2 + seq![msgs[n - 1]] == msgs);
            },
            None => {
                assert(emitted(flushed) =~= emitted(f2));
                assert(states.last() == states[n as int]);
                assert(states[n as int] == states[n - 1].push(msgs[n - 1]));
                assert(emitted(f2) + states[n - 1] == m2);
                assert(emitted(f2) + states[n - 1].push(msgs[n - 1]) =~= (emitted(f2) + states[n - 1]).push(msgs[n - 1]));
                assert(msgs =~= m2.push(msgs[n - 1]));
            },
        }
        assert forall|i: int| 0 <= i < flushed.len() && #[trigger] flushed[i] is Some implies ({
            let v = flushed[i]->0;
            &&& 1 <= v.len() <= limit
            &&& encoded_size(v) + 7 <= path_mtu
        }) by {
            if i < n - 1 {
                assert(f2[i] == flushed[i]);
            } else {
                if n - 1 > 0 {
                    let k = n - 2;
                    assert(push_step(states[k], msgs[k], flushed[k], states[k + 1], limit, path_mtu));
                }
            }
        }
    }
}

/// MTU-aware coalescer of small application messages for the
/// authenticated morphology envelope. Clock readings are monotonic
/// nanoseconds supplied by the caller.
#[derive(Debug)]
pub struct MorphologyBatcher {
    messages: Vec<Vec<u8>>,
    encoded_payload_bytes: usize,
    policy: MorphologyBatchPolicy,
    first_message_at: Option<u64>,
}

impl MorphologyBatcher {
    /// The buffered messages, oldest first.
    pub closed spec fn pending(&self) -> Seq<Seq<u8>> {
        byte_views(self.messages@)
    }

    /// When the first buffered message arrived.
    pub closed spec fn started(&self) -> Option<u64> {
        self.first_message_at
    }

    /// The batching policy.
    pub closed spec fn policy_spec(&self) -> MorphologyBatchPolicy {
        self.policy
    }

    /// The batcher's internal consistency: the cached encoded size, the
    /// message bound of the policy, and a start time exactly when a batch is
    /// pending.
    pub closed spec fn wf(&self) -> bool {
        &&& self.encoded_payload_bytes == encoded_size(byte_views(self.messages@))
        &&& self.messages@.len() <= self.policy.max_messages <= MAX_BATCH_MESSAGES
        &&& 1 <= self.policy.max_messages
        &&& self.policy.max_wait <= MAX_BATCH_WAIT_NANOS
        &&& forall|i: int| 0 <= i < self.messages@.len() ==> #[trigger] self.messages@[i]@.len()
            <= MAX_BATCH_PAYLOAD_BYTES
        &&& (self.first_message_at is Some <==> self.messages@.len() > 0)
    }

    /// In a well-formed batcher a start time is recorded exactly when a
    /// batch is pending, so an empty batcher is never due and has no time
    /// left to wait; the wait bound is at most `MAX_BATCH_WAIT_NANOS`.
    pub proof fn lemma_started_iff_pending(&self, now: u64)
        requires
            self.wf(),
        ensures
            self.started() is Some <==> self.pending().len() > 0,
            self.pending().len() == 0 ==> !due_at(self.started(), now, self.policy_spec().wait_limit()),
            self.policy_spec().wait_limit() <= MAX_BATCH_WAIT_NANOS,
            1 <= self.policy_spec().message_limit() <= MAX_BATCH_MESSAGES,
    {
    }

    /// An empty batcher with the default policy.
    pub fn new() -> (b: Self)
        ensures
            b.wf(),
            b.pending().len() == 0,
            b.started() is None,
            b.policy_spec().message_limit() == MAX_BATCH_MESSAGES,
            b.policy_spec().wait_limit() == MAX_BATCH_WAIT_NANOS,
    {
        let policy = MorphologyBatchPolicy::default();
        Self::with_policy(policy)
    }

    /// An empty batcher with the given policy.
    pub fn with_policy(policy: MorphologyBatchPolicy) -> (b: Self)
        ensures
            b.wf(),
            b.pending().len() == 0,
            b.started() is None,
            b.policy_spec() == policy,
    {
        proof {
            use_type_invariant(policy);
        }
        let b = MorphologyBatcher { messages: Vec::new(), encoded_payload_bytes: 0, policy, first_message_at: None };
        assert(byte_views(b.messages@) =~= Seq::<Seq<u8>>::empty());
        b
    }

    /// An empty batcher with the profile's recommended policy.
    pub fn for_profile(profile: MorphologyProfile) -> (b: Self)
        ensures
            b.wf(),
            b.pending().len() == 0,
            b.started() is None,
            b.policy_spec().message_limit() == recommended_limits(profile).0,
            b.policy_spec().wait_limit() == recommended_limits(profile).1,
    {
        Self::with_policy(MorphologyBatchPolicy::recommended(profile))
    }

    /// The batching policy.
    pub fn policy(&self) -> (p: MorphologyBatchPolicy)
        ensures
            p == self.policy_spec(),
    {
        self.policy
    }

    /// The number of buffered messages.
    pub fn len(&self) -> (n: usize)
        ensures
            n == self.pending().len(),
    {
        self.messages.len()
    }

    /// Whether no message is buffered.
    pub fn is_empty(&self) -> (b: bool)
        ensures
            b == (self.pending().len() == 0),
    {
        self.messages.len() == 0
    }

    /// Whether the batch's wait bound has passed at `now`.
    pub fn is_due(&self, now: u64) -> (b: bool)
        ensures
            b == due_at(self.started(), now, self.policy_spec().wait_limit()),
    {
        match self.first_message_at {
            Some(start) => {
                let elapsed = if now >= start { now - start } else { 0 };
                elapsed >= self.policy.max_wait
            },
            None => false,
        }
    }

    /// Time left at `now` before the batch is due, if a batch is pending.
    pub fn time_until_due(&self, now: u64) -> (r: Option<u64>)
        ensures
            self.started() is None ==> r is None,
            self.started() matches Some(s) ==> r matches Some(t) && t == (if (if now >= s { now - s } else { 0 })
                >= self.policy_spec().wait_limit() {
                0
            } else {
                self.policy_spec().wait_limit() - (if now >= s { now - s } else { 0 })
            }),
    {
        match self.first_message_at {
            Some(start) => {
                let elapsed = if now >= start { now - start } else { 0 };
                Some(if elapsed >= self.policy.max_wait { 0 } else { self.policy.max_wait - elapsed })
            },
            None => None,
        }
    }

    /// Returns the buffered batch and empties the batcher; `None` when
    /// nothing is buffered.
    pub fn flush(&mut self) -> (r: Option<Vec<Vec<u8>>>)
        requires
            old(self).wf(),
        ensures
            final(self).wf(),
            old(self).pending().len() == 0 ==> r is None && final(self).pending() == old(self).pending()
                && final(self).started() == old(self).started(),
            old(self).pending().len() > 0 ==> (r matches Some(ms) && byte_views(ms@) == old(self).pending()),
            old(self).pending().len() > 0 ==> final(self).pending().len() == 0 && final(self).started() is None,
            final(self).policy_spec() == old(self).policy_spec(),
    {
        if self.messages.len() == 0 {
            return None;
        }
        let mut taken: Vec<Vec<u8>> = Vec::new();
        std::mem::swap(&mut taken, &mut self.messages);
        self.encoded_payload_bytes = 0;
        self.first_message_at = None;
        assert(byte_views(self.messages@) =~= Seq::<Seq<u8>>::empty());
        Some(taken)
    }

    /// Flushes the batch when its wait bound has passed at `now`.
    pub fn flush_if_due(&mut self, now: u64) -> (r: Option<Vec<Vec<u8>>>)
        requires
            old(self).wf(),
        ensures
            final(self).wf(),
            !due_at(old(self).started(), now, old(self).policy_spec().wait_limit()) ==> r is None && final(self).pending() == old(self).pending() && final(self).started() == old(self).started(),
            due_at(old(self).started(), now, old(self).policy_spec().wait_limit()) ==> (r matches Some(ms)
                && byte_views(ms@) == old(self).pending()),
            due_at(old(self).started(), now, old(self).policy_spec().wait_limit()) ==> final(self).pending().len() == 0
                && final(self).started() is None,
            final(self).policy_spec() == old(self).policy_spec(),
    {
        if self.is_due(now) {
            self.flush()
        } else {
            None
        }
    }

    fn push_without_flush(&mut self, message: &[u8], now: u64)
        requires
            old(self).wf(),
            old(self).messages@.len() < old(self).policy.max_messages,
            1 <= message@.len() <= MAX_BATCH_PAYLOAD_BYTES,
        ensures
            final(self).pending() == old(self).pending().push(message@),
            final(self).started() == (if old(self).pending().len() == 0 { Some(now) } else { old(self).started() }),
            final(self).policy_spec() == old(self).policy_spec(),
            final(self).wf(),
    {
        proof {
            lemma_encoded_size_bound(byte_views(self.messages@));
        }
        let mut messages: Vec<Vec<u8>> = Vec::new();
        std::mem::swap(&mut messages, &mut self.messages);
        let ghost before = byte_views(messages@);
        let start = if messages.len() == 0 { Some(now) } else { self.first_message_at };
        let bytes = self.encoded_payload_bytes + BATCH_MESSAGE_LENGTH_BYTES + message.len();
        messages.push(crate::wire::copy_bytes(message));
        proof {
            assert(byte_views(messages@) =~= before.push(message@));
            assert(byte_views(messages@).drop_last() =~= before);
        }
        self.first_message_at = start;
        self.encoded_payload_bytes = bytes;
        self.messages = messages;
    }

    /// Adds one message under the given path MTU at clock reading `now`.
    /// A non-empty batch is flushed first, and returned, when it is due,
    /// holds the policy's message limit, or cannot take the message within
    /// the path MTU; the message then starts the next batch.
    pub fn push(&mut self, message: &[u8], path_mtu: usize, now: u64) -> (r: Result<MorphologyBatchPushResult>)
        requires
            old(self).wf(),
        ensures
            final(self).wf(),
            final(self).policy_spec() == old(self).policy_spec(),
            push_error(message@.len(), path_mtu as nat) is Some ==> (r matches Err(e) && datagram_error_matches(
                e,
                path_mtu as nat,
                push_error(message@.len(), path_mtu as nat)->0,
            ) && final(self).pending() == old(self).pending() && final(self).started() == old(self).started()),
            push_error(message@.len(), path_mtu as nat) is None ==> r is Ok,
            r matches Ok(MorphologyBatchPushResult::Flush(ms)) ==> {
                &&& old(self).pending().len() > 0
                &&& byte_views(ms@) == old(self).pending()
                &&& final(self).pending() == seq![message@]
                &&& final(self).started() == Some(now)
            },
            r matches Ok(MorphologyBatchPushResult::Buffered) ==> {
                &&& final(self).pending() == old(self).pending().push(message@)
                &&& final(self).started() == (if old(self).pending().len() == 0 { Some(now) } else { old(self).started() })
            },
            r is Ok ==> (old(self).pending().len() > 0 && (due_at(old(self).started(), now, old(self).policy_spec().wait_limit())
                || old(self).pending().len() >= old(self).policy_spec().message_limit() || encoded_size(old(self).pending()) + 2
                + message@.len() > path_mtu - 7) <==> r matches Ok(MorphologyBatchPushResult::Flush(_))),
            r is Ok ==> encoded_size(final(self).pending()) <= path_mtu - 7,
            final(self).pending().len() <= final(self).policy_spec().message_limit(),
            r is Ok ==> push_step(
                old(self).pending(),
                message@,
                match r {
                    Ok(MorphologyBatchPushResult::Flush(ms)) => Some(byte_views(ms@)),
                    _ => None,
                },
                final(self).pending(),
                old(self).policy_spec().message_limit(),
                path_mtu as nat,
            ),
    {
        proof {
            reveal_strlit("morphology path MTU must be between 7 and 65535 bytes");
            lemma_encoded_size_bound(self.pending());
        }
        match validate_path_mtu(path_mtu) {
            Ok(()) => {},
            Err(e) => return Err(e),
        }
        if message.len() == 0 {
            return Err(ShphError::Protocol(msg("morphology batch messages must not be empty")));
        }
        if message.len() > 0xffff {
            return Err(ShphError::Protocol(msg("morphology batch message exceeds the length field")));
        }
        let maximum_payload_bytes = path_mtu - MORPHOLOGY_HEADER_BYTES;
        let message_bytes = BATCH_MESSAGE_LENGTH_BYTES + message.len();
        if message_bytes > maximum_payload_bytes {
            return Err(ShphError::Protocol(msg("batch message exceeds the negotiated datagram limit")));
        }
        let due = self.is_due(now);
        if self.messages.len() > 0 && (due || self.messages.len() >= self.policy.max_messages
            || self.encoded_payload_bytes + message_bytes > maximum_payload_bytes) {
            let flushed = match self.flush() {
                Some(f) => f,
                None => return Err(ShphError::Protocol(msg("morphology batch state became inconsistent"))),
            };
            self.push_without_flush(message, now);
            assert(self.pending() =~= seq![message@]);
            assert(self.pending().drop_last() =~= Seq::<Seq<u8>>::empty());
            assert(encoded_size(Seq::<Seq<u8>>::empty()) == 0);
            assert(encoded_size(self.pending()) == 2 + message@.len());
            return Ok(MorphologyBatchPushResult::Flush(flushed));
        }
        let ghost before = self.pending();
        self.push_without_flush(message, now);
        assert(self.pending().drop_last() =~= before);
        assert(encoded_size(self.pending()) == encoded_size(before) + 2 + message@.len());
        Ok(MorphologyBatchPushResult::Buffered)
    }
}

/// Why `MorphologyBatcher::push` refuses a message, if it does.
pub open spec fn push_error(message_len: nat, path_mtu: nat) -> Option<Seq<char>> {
    if !path_mtu_ok(path_mtu) {
        Some(path_mtu_message())
    } else if message_len == 0 {
        Some("morphology batch messages must not be empty"@)
    } else if message_len > 0xffff {
        Some("morphology batch message exceeds the length field"@)
    } else if 2 + message_len > path_mtu - 7 {
        Some("batch message exceeds the negotiated datagram limit"@)
    } else {
        None
    }
}

impl Default for MorphologyBatcher {
    fn default() -> (b: Self)
        ensures
            b.wf(),
            b.pending().len() == 0,
            b.started() is None,
            b.policy_spec().message_limit() == MAX_BATCH_MESSAGES,
            b.policy_spec().wait_limit() == MAX_BATCH_WAIT_NANOS,
    {
        MorphologyBatcher::new()
    }
}

// ---------------------------------------------------------------------------
// Size classes and the morphology engine.
// ---------------------------------------------------------------------------

/// The outer datagram size classes of a profile.
pub open spec fn size_classes(p: MorphologyProfile) -> Seq<usize> {
    match p {
        MorphologyProfile::LowLatency => seq![128usize, 256, 512, 1024],
        MorphologyProfile::WebBrowsingLab => seq![384usize, 768, 1024, 1280, 1536],
        MorphologyProfile::VideoStreamingLab => seq![1024usize, 1280, 1536, 2048, 4096],
        MorphologyProfile::BulkLab => seq![1280usize, 2048, 4096, 8192, 16384],
    }
}

/// The integer selection weights of a profile's classes; `None` for uniform
/// selection.
pub open spec fn size_class_weights(p: MorphologyProfile) -> Option<Seq<u32>> {
    match p {
        MorphologyProfile::LowLatency => Some(seq![65u32, 25, 8, 2]),
        MorphologyProfile::WebBrowsingLab => Some(seq![45u32, 30, 15, 8, 2]),
        MorphologyProfile::VideoStreamingLab => Some(seq![45u32, 30, 15, 8, 2]),
        MorphologyProfile::BulkLab => None,
    }
}

/// The inter-frame delay bounds of a profile, in nanoseconds.
pub open spec fn jitter_bounds(p: MorphologyProfile) -> (u64, u64) {
    match p {
        MorphologyProfile::LowLatency => (0, 500_000),
        MorphologyProfile::WebBrowsingLab => (100_000, 8_000_000),
        MorphologyProfile::VideoStreamingLab => (50_000, 3_000_000),
        MorphologyProfile::BulkLab => (0, 750_000),
    }
}

/// The classes eligible for a payload: each class capped at the path MTU,
/// those below the minimum dropped, and equal neighbours merged with their
/// weights added.
pub open spec fn eligible_classes(classes: Seq<usize>, weights: Seq<u32>, minimum: nat, path_mtu: nat) -> Seq<(nat, nat)>
    decreases classes.len(),
{
    if classes.len() == 0 || weights.len() == 0 {
        Seq::empty()
    } else {
        let prev = eligible_classes(classes.drop_last(), weights.drop_last(), minimum, path_mtu);
        let w = weights.last() as nat;
        let c = if classes.last() > path_mtu { path_mtu } else { classes.last() as nat };
        if w == 0 || c < minimum {
            prev
        } else if prev.len() > 0 && prev.last().0 == c {
            prev.update(prev.len() - 1, (c, prev.last().1 + w))
        } else {
            prev.push((c, w))
        }
    }
}

/// Total weight of eligible classes.
pub open spec fn total_weight(e: Seq<(nat, nat)>) -> nat
    decreases e.len(),
{
    if e.len() == 0 {
        0
    } else {
        total_weight(e.drop_last()) + e.last().1
    }
}

/// The class a draw below the total weight selects: the first class whose
/// cumulative weight exceeds the draw.
pub open spec fn pick_class(e: Seq<(nat, nat)>, draw: nat) -> nat
    decreases e.len(),
{
    if e.len() == 0 {
        0
    } else if draw < e[0].1 {
        e[0].0
    } else {
        pick_class(e.drop_first(), (draw - e[0].1) as nat)
    }
}

/// A sampled size clamped between the minimum and the path MTU.
pub open spec fn clamp_size(sampled: nat, minimum: nat, path_mtu: nat) -> nat {
    let up = if sampled < minimum { minimum } else { sampled };
    if up > path_mtu { path_mtu } else { up }
}

proof fn lemma_total_weight_front(e: Seq<(nat, nat)>)
    requires
        e.len() > 0,
    ensures
        total_weight(e) == e[0].1 + total_weight(e.drop_first()),
    decreases e.len(),
{
    if e.len() > 1 {
        lemma_total_weight_front(e.drop_last());
        assert(e.drop_last().drop_first() =~= e.drop_first().drop_last());
        assert(e.drop_last()[0] == e[0]);
    } else {
        assert(e.drop_last() =~= Seq::<(nat, nat)>::empty());
        assert(e.drop_first() =~= Seq::<(nat, nat)>::empty());
    }
}

proof fn lemma_pick_in_classes(e: Seq<(nat, nat)>, draw: nat)
    requires
        draw < total_weight(e),
    ensures
        exists|i: int| 0 <= i < e.len() && e[i].0 == pick_class(e, draw),
    decreases e.len(),
{
    lemma_total_weight_front(e);
    if draw >= e[0].1 {
        lemma_pick_in_classes(e.drop_first(), (draw - e[0].1) as nat);
        let i = choose|i: int| 0 <= i < e.drop_first().len() && e.drop_first()[i].0 == pick_class(
            e.drop_first(),
            (draw - e[0].1) as nat,
        );
        assert(e[i + 1] == e.drop_first()[i]);
    } else {
        assert(e[0].0 == pick_class(e, draw));
    }
}

/// The class sizes a weighted profile can select for a payload, before
/// clamping: the eligible classes, or the minimum when none is eligible.
pub fn weighted_class_for_draw(classes: &Vec<usize>, weights: &Vec<u32>, minimum: usize, path_mtu: usize, draw: u32) -> (r:
    usize)
    requires
        classes@.len() == weights@.len(),
        classes@.len() <= 8,
        forall|i: int| 0 <= i < weights@.len() ==> #[trigger] weights@[i] <= 100,
    ensures
        r == (if draw < total_weight(eligible_classes(classes@, weights@, minimum as nat, path_mtu as nat)) {
            pick_class(eligible_classes(classes@, weights@, minimum as nat, path_mtu as nat), draw as nat)
        } else {
            minimum as nat
        }),
{
    let mut eclass: Vec<usize> = Vec::new();
    let mut eweight: Vec<u32> = Vec::new();
    let mut i: usize = 0;
    while i < classes.len()
        invariant
            classes@.len() == weights@.len(),
            classes@.len() <= 8,
            forall|k: int| 0 <= k < weights@.len() ==> #[trigger] weights@[k] <= 100,
            i <= classes@.len(),
            eclass@.len() == eweight@.len(),
            eclass@.len() <= i,
            eclass@.len() == eligible_classes(classes@.take(i as int), weights@.take(i as int), minimum as nat, path_mtu as nat).len(),
            forall|k: int| 0 <= k < eclass@.len() ==> (eclass@[k] as nat, eweight@[k] as nat) == #[trigger] eligible_classes(
                classes@.take(i as int),
                weights@.take(i as int),
                minimum as nat,
                path_mtu as nat,
            )[k],
            forall|k: int| 0 <= k < eweight@.len() ==> #[trigger] eweight@[k] <= 100 * i,
            total_weight(eligible_classes(classes@.take(i as int), weights@.take(i as int), minimum as nat, path_mtu as nat)) <= 100 * i,
        decreases classes@.len() - i,
    {
        let ghost prev = eligible_classes(classes@.take(i as int), weights@.take(i as int), minimum as nat, path_mtu as nat);
        proof {
            assert(classes@.take(i + 1).drop_last() =~= classes@.take(i as int));
            assert(weights@.take(i + 1).drop_last() =~= weights@.take(i as int));
            assert(classes@.take(i + 1).last() == classes@[i as int]);
            assert(weights@.take(i + 1).last() == weights@[i as int]);
        }
        let w = weights[i];
        let c = if classes[i] > path_mtu { path_mtu } else { classes[i] };
        if w == 0 || c < minimum {
        } else if eclass.len() > 0 && eclass[eclass.len() - 1] == c {
            let last = eclass.len() - 1;
            let merged = eweight[last] + w;
            eweight.set(last, merged);
            proof {
                let next = prev.update(prev.len() - 1, (c as nat, prev.last().1 + w as nat));
                assert(next.drop_last() =~= prev.drop_last());
                assert(total_weight(next) == total_weight(prev) + w);
            }
        } else {
            eclass.push(c);
            eweight.push(w);
            proof {
                assert(prev.push((c as nat, w as nat)).drop_last() =~= prev);
            }
        }
        i = i + 1;
    }
    proof {
        assert(classes@.take(classes@.len() as int) =~= classes@);
        assert(weights@.take(weights@.len() as int) =~= weights@);
    }
    let ghost e = eligible_classes(classes@, weights@, minimum as nat, path_mtu as nat);
    let mut total: u32 = 0;
    let mut j: usize = 0;
    while j < eweight.len()
        invariant
            eclass@.len() == eweight@.len(),
            eclass@.len() == e.len(),
            forall|k: int| 0 <= k < eclass@.len() ==> (eclass@[k] as nat, eweight@[k] as nat) == #[trigger] e[k],
            forall|k: int| 0 <= k < eweight@.len() ==> #[trigger] eweight@[k] <= 800,
            e.len() <= 8,
            j <= e.len(),
            total == total_weight(e.take(j as int)),
            total <= 800 * j,
        decreases e.len() - j,
    {
        proof {
            assert(e.take(j + 1).drop_last() =~= e.take(j as int));
            assert(e.take(j + 1).last() == e[j as int]);
        }
        total = total + eweight[j];
        j = j + 1;
    }
    proof {
        assert(e.take(e.len() as int) =~= e);
    }
    if draw >= total {
        return minimum;
    }
    let mut selection: u32 = draw;
    let mut k: usize = 0;
    while k < eclass.len()
        invariant
            eclass@.len() == eweight@.len(),
            eclass@.len() == e.len(),
            forall|m: int| 0 <= m < eclass@.len() ==> (eclass@[m] as nat, eweight@[m] as nat) == #[trigger] e[m],
            k <= e.len(),
            e == eligible_classes(classes@, weights@, minimum as nat, path_mtu as nat),
            draw < total_weight(e),
            selection < total_weight(e.skip(k as int)),
            pick_class(e, draw as nat) == pick_class(e.skip(k as int), selection as nat),
        decreases e.len() - k,
    {
        let ghost rest = e.skip(k as int);
        proof {
            lemma_total_weight_front(rest);
            assert(rest[0] == e[k as int]);
            assert(rest.drop_first() =~= e.skip(k + 1));
        }
        if selection < eweight[k] {
            proof {
                assert(rest.len() > 0);
                assert((eclass@[k as int] as nat, eweight@[k as int] as nat) == e[k as int]);
                assert(pick_class(rest, selection as nat) == rest[0].0);
            }
            return eclass[k];
        }
        selection = selection - eweight[k];
        k = k + 1;
    }
    proof {
        assert(e.skip(e.len() as int) =~= Seq::<(nat, nat)>::empty());
    }
    minimum
}

/// The size class vector of a profile.
fn classes_of(profile: MorphologyProfile) -> (v: Vec<usize>)
    ensures
        v@ == size_classes(profile),
{
    let v = match profile {
        MorphologyProfile::LowLatency => vec![128, 256, 512, 1024],
        MorphologyProfile::WebBrowsingLab => vec![384, 768, 1024, 1280, 1536],
        MorphologyProfile::VideoStreamingLab => vec![1024, 1280, 1536, 2048, 4096],
        MorphologyProfile::BulkLab => vec![1280, 2048, 4096, 8192, 16384],
    };
    assert(v@ =~= size_classes(profile));
    v
}

/// The weight vector of a weighted profile.
fn weights_of(profile: MorphologyProfile) -> (w: Option<Vec<u32>>)
    ensures
        match size_class_weights(profile) {
            Some(s) => w matches Some(v) && v@ == s,
            None => w is None,
        },
{
    match profile {
        MorphologyProfile::LowLatency => {
            let v: Vec<u32> = vec![65, 25, 8, 2];
            assert(v@ =~= seq![65u32, 25, 8, 2]);
            Some(v)
        },
        MorphologyProfile::WebBrowsingLab | MorphologyProfile::VideoStreamingLab => {
            let v: Vec<u32> = vec![45, 30, 15, 8, 2];
            assert(v@ =~= seq![45u32, 30, 15, 8, 2]);
            Some(v)
        },
        MorphologyProfile::BulkLab => None,
    }
}

/// The clamped size that a draw selects among eligible classes; the
/// minimum when the draw is not below the total weight.
pub open spec fn weighted_size(e: Seq<(nat, nat)>, d: nat, minimum: nat, path_mtu: nat) -> nat {
    clamp_size(if d < total_weight(e) { pick_class(e, d) } else { minimum }, minimum, path_mtu)
}

/// The outer sizes a profile may choose for a payload whose envelope needs
/// `minimum` bytes under a path MTU, after clamping.
pub open spec fn possible_size(profile: MorphologyProfile, minimum: nat, path_mtu: nat, t: nat) -> bool {
    match size_class_weights(profile) {
        Some(w) => {
            let e = eligible_classes(size_classes(profile), w, minimum, path_mtu);
            exists|d: nat| t == #[trigger] weighted_size(e, d, minimum, path_mtu)
        },
        None => exists|i: int|
            0 <= i < size_classes(profile).len() && t == clamp_size(
                #[trigger] size_classes(profile)[i] as nat,
                minimum,
                path_mtu,
            ),
    }
}

/// Why `target_size` refuses a payload, if it does.
pub open spec fn target_size_error(payload_len: nat, path_mtu: nat) -> Option<Seq<char>> {
    if !path_mtu_ok(path_mtu) {
        Some(path_mtu_message())
    } else if payload_len + 7 > usize::MAX {
        Some("morphology payload length overflow"@)
    } else if payload_len + 7 > path_mtu {
        Some("morphology payload exceeds negotiated datagram limit"@)
    } else {
        None
    }
}

/// The outer size a profile chooses for a random draw: a weighted class
/// chosen by `draw` (a class index for uniform profiles), clamped between the
/// envelope minimum and the path MTU.
pub fn size_for_draw(profile: MorphologyProfile, minimum: usize, path_mtu: usize, draw: u32) -> (t: usize)
    requires
        minimum <= path_mtu,
        size_class_weights(profile) is None ==> draw < size_classes(profile).len(),
    ensures
        minimum <= t <= path_mtu,
        possible_size(profile, minimum as nat, path_mtu as nat, t as nat),
        t as nat == match size_class_weights(profile) {
            Some(w) => weighted_size(
                eligible_classes(size_classes(profile), w, minimum as nat, path_mtu as nat),
                draw as nat,
                minimum as nat,
                path_mtu as nat,
            ),
            None => clamp_size(size_classes(profile)[draw as int] as nat, minimum as nat, path_mtu as nat),
        },
{
    let classes = classes_of(profile);
    let sampled = match weights_of(profile) {
        Some(weights) => {
            let c = weighted_class_for_draw(&classes, &weights, minimum, path_mtu, draw);
            proof {
                let e = eligible_classes(size_classes(profile), weights@, minimum as nat, path_mtu as nat);
                assert(c == clamp_size(
                    if (draw as nat) < total_weight(e) { pick_class(e, draw as nat) } else { minimum as nat },
                    minimum as nat,
                    path_mtu as nat,
                ) || c == (if (draw as nat) < total_weight(e) { pick_class(e, draw as nat) } else { minimum as nat }));
            }
            c
        },
        None => classes[draw as usize],
    };
    let up = if sampled < minimum { minimum } else { sampled };
    let t = if up > path_mtu { path_mtu } else { up };
    proof {
        match size_class_weights(profile) {
            Some(w) => {
                let e = eligible_classes(size_classes(profile), w, minimum as nat, path_mtu as nat);
                let d = draw as nat;
                assert(t == clamp_size(if d < total_weight(e) { pick_class(e, d) } else { minimum as nat }, minimum as nat, path_mtu as nat));
                assert(t == weighted_size(e, d, minimum as nat, path_mtu as nat));
            },
            None => {
                assert(t == clamp_size(size_classes(profile)[draw as int] as nat, minimum as nat, path_mtu as nat));
            },
        }
    }
    t
}

#[verifier::external_type_specification]
#[verifier::external_body]
pub struct ExStdRng(rand::rngs::StdRng);

/// Calls `rand::SeedableRng::seed_from_u64` for `StdRng`; the generator's
/// state is not described.
#[verifier::external_body]
fn seeded_rng(seed: u64) -> rand::rngs::StdRng {
    <rand::rngs::StdRng as rand::SeedableRng>::seed_from_u64(seed)
}

/// Calls `rand::Rng::gen_range(rng, 0..bound)`, which yields a value below
/// the bound (and panics on an empty range, excluded here).
#[verifier::external_body]
fn rng_below(rng: &mut rand::rngs::StdRng, bound: u32) -> (r: u32)
    requires
        bound > 0,
    ensures
        r < bound,
{
    rand::Rng::gen_range(rng, 0..bound)
}

/// Calls `rand::Rng::gen_range(rng, lo..=hi)`, which yields a value in the
/// closed range (and panics on an empty range, excluded here).
#[verifier::external_body]
fn rng_between(rng: &mut rand::rngs::StdRng, lo: u64, hi: u64) -> (r: u64)
    requires
        lo <= hi,
    ensures
        lo <= r <= hi,
{
    rand::Rng::gen_range(rng, lo..=hi)
}

/// Fits a sampled outer size, such as one drawn from an empirical size
/// histogram, between the payload's envelope minimum and the negotiated
/// path MTU.
pub fn fit_sampled_size(sampled: usize, payload_len: usize, path_mtu: usize) -> (r: Result<usize>)
    ensures
        r is Ok <==> target_size_error(payload_len as nat, path_mtu as nat) is None,
        r matches Err(e) ==> datagram_error_matches(e, path_mtu as nat, target_size_error(payload_len as nat, path_mtu as nat)->0),
        r matches Ok(t) ==> t == (if sampled < payload_len + 7 {
            payload_len + 7
        } else if sampled > path_mtu {
            path_mtu as int
        } else {
            sampled as int
        }),
{
    match validate_path_mtu(path_mtu) {
        Ok(()) => {},
        Err(e) => return Err(e),
    }
    if payload_len > usize::MAX - MORPHOLOGY_HEADER_BYTES {
        return Err(ShphError::Protocol(msg("morphology payload length overflow")));
    }
    let minimum = payload_len + MORPHOLOGY_HEADER_BYTES;
    if minimum > path_mtu {
        return Err(ShphError::Protocol(msg("morphology payload exceeds negotiated datagram limit")));
    }
    let raised = if sampled < minimum { minimum } else { sampled };
    Ok(if raised > path_mtu { path_mtu } else { raised })
}

/// Chooses outer datagram sizes and inter-frame delays for a profile from a
/// seeded generator.
pub struct MorphologyEngine {
    profile: MorphologyProfile,
    rng: rand::rngs::StdRng,
}

impl MorphologyEngine {
    /// The engine's profile.
    pub closed spec fn profile_spec(&self) -> MorphologyProfile {
        self.profile
    }

    /// An engine seeded from eight bytes of operating-system randomness;
    /// fails when the operating system gives none.
    pub fn new(profile: MorphologyProfile) -> (r: Result<Self>)
        ensures
            r matches Ok(e) ==> e.profile_spec() == profile,
            r matches Err(e) ==> (e matches ShphError::Crypto(m) && m@ == "OS randomness unavailable"@),
    {
        let bytes = match os_random_bytes(8) {
            Some(b) => b,
            None => return Err(ShphError::Crypto(msg("OS randomness unavailable"))),
        };
        let mut seed: u64 = 0;
        let mut i: usize = 0;
        while i < 8
            invariant
                i <= 8,
                bytes@.len() == 8,
            decreases 8 - i,
        {
            seed = (seed << 8u64) | (bytes[i] as u64);
            i = i + 1;
        }
        Ok(Self::from_seed(profile, seed))
    }

    /// An engine seeded with `seed`; the same seed gives the same choices.
    pub fn from_seed(profile: MorphologyProfile, seed: u64) -> (e: Self)
        ensures
            e.profile_spec() == profile,
    {
        MorphologyEngine { profile, rng: seeded_rng(seed) }
    }

    /// The engine's profile.
    pub fn profile(&self) -> (p: MorphologyProfile)
        ensures
            p == self.profile_spec(),
    {
        self.profile
    }

    /// Selects an outer datagram size, header and padding included, between
    /// the payload's envelope minimum and the negotiated path MTU.
    pub fn target_size(&mut self, payload_len: usize, path_mtu: usize) -> (r: Result<usize>)
        ensures
            final(self).profile_spec() == old(self).profile_spec(),
            r is Ok <==> target_size_error(payload_len as nat, path_mtu as nat) is None,
            r matches Err(e) ==> datagram_error_matches(
                e,
                path_mtu as nat,
                target_size_error(payload_len as nat, path_mtu as nat)->0,
            ),
            r matches Ok(t) ==> payload_len + 7 <= t <= path_mtu && possible_size(
                old(self).profile_spec(),
                (payload_len + 7) as nat,
                path_mtu as nat,
                t as nat,
            ),
    {
        match validate_path_mtu(path_mtu) {
            Ok(()) => {},
            Err(e) => return Err(e),
        }
        if payload_len > usize::MAX - MORPHOLOGY_HEADER_BYTES {
            return Err(ShphError::Protocol(msg("morphology payload length overflow")));
        }
        let minimum = payload_len + MORPHOLOGY_HEADER_BYTES;
        if minimum > path_mtu {
            return Err(ShphError::Protocol(msg("morphology payload exceeds negotiated datagram limit")));
        }
        let classes = classes_of(self.profile);
        let draw: u32 = match weights_of(self.profile) {
            Some(weights) => {
                let total = eligible_total(&classes, &weights, minimum, path_mtu);
                if total == 0 {
                    total
                } else {
                    rng_below(&mut self.rng, total)
                }
            },
            None => rng_below(&mut self.rng, classes.len() as u32),
        };
        Ok(size_for_draw(self.profile, minimum, path_mtu, draw))
    }

    /// The next inter-frame delay in nanoseconds, within the profile's
    /// jitter bounds.
    pub fn next_delay(&mut self) -> (d: u64)
        ensures
            final(self).profile_spec() == old(self).profile_spec(),
            jitter_bounds(old(self).profile_spec()).0 <= d <= jitter_bounds(old(self).profile_spec()).1,
    {
        let (minimum, maximum): (u64, u64) = match self.profile {
            MorphologyProfile::LowLatency => (0, 500_000),
            MorphologyProfile::WebBrowsingLab => (100_000, 8_000_000),
            MorphologyProfile::VideoStreamingLab => (50_000, 3_000_000),
            MorphologyProfile::BulkLab => (0, 750_000),
        };
        if minimum >= maximum {
            return minimum;
        }
        rng_between(&mut self.rng, minimum, maximum)
    }
}

/// Total weight of the eligible classes.
fn eligible_total(classes: &Vec<usize>, weights: &Vec<u32>, minimum: usize, path_mtu: usize) -> (t: u32)
    requires
        classes@.len() == weights@.len(),
        classes@.len() <= 8,
        forall|i: int| 0 <= i < weights@.len() ==> #[trigger] weights@[i] <= 100,
    ensures
        t == total_weight(eligible_classes(classes@, weights@, minimum as nat, path_mtu as nat)),
{
    let ghost e = eligible_classes(classes@, weights@, minimum as nat, path_mtu as nat);
    let mut total: u32 = 0;
    let mut i: usize = 0;
    while i < classes.len()
        invariant
            classes@.len() == weights@.len(),
            classes@.len() <= 8,
            forall|k: int| 0 <= k < weights@.len() ==> #[trigger] weights@[k] <= 100,
            i <= classes@.len(),
            total == total_weight(eligible_classes(classes@.take(i as int), weights@.take(i as int), minimum as nat, path_mtu as nat)),
            total <= 100 * i,
        decreases classes@.len() - i,
    {
        proof {
            assert(classes@.take(i + 1).drop_last() =~= classes@.take(i as int));
            assert(weights@.take(i + 1).drop_last() =~= weights@.take(i as int));
            assert(classes@.take(i + 1).last() == classes@[i as int]);
            assert(weights@.take(i + 1).last() == weights@[i as int]);
            lemma_eligible_step_total(classes@.take(i + 1), weights@.take(i + 1), minimum as nat, path_mtu as nat);
        }
        let c = if classes[i] > path_mtu { path_mtu } else { classes[i] };
        if weights[i] != 0 && c >= minimum {
            total = total + weights[i];
        }
        i = i + 1;
    }
    proof {
        assert(classes@.take(classes@.len() as int) =~= classes@);
        assert(weights@.take(weights@.len() as int) =~= weights@);
    }
    total
}

proof fn lemma_eligible_step_total(classes: Seq<usize>, weights: Seq<u32>, minimum: nat, path_mtu: nat)
    requires
        classes.len() > 0,
        weights.len() > 0,
    ensures
        total_weight(eligible_classes(classes, weights, minimum, path_mtu)) == total_weight(
            eligible_classes(classes.drop_last(), weights.drop_last(), minimum, path_mtu),
        ) + (if weights.last() == 0 || (if classes.last() > path_mtu { path_mtu } else { classes.last() as nat })
            < minimum {
            0
        } else {
            weights.last() as nat
        }),
{
    let prev = eligible_classes(classes.drop_last(), weights.drop_last(), minimum, path_mtu);
    let w = weights.last() as nat;
    let c = if classes.last() > path_mtu { path_mtu } else { classes.last() as nat };
    if w == 0 || c < minimum {
    } else if prev.len() > 0 && prev.last().0 == c {
        let next = prev.update(prev.len() - 1, (c, prev.last().1 + w));
        assert(next.drop_last() =~= prev.drop_last());
    } else {
        assert(prev.push((c, w)).drop_last() =~= prev);
    }
}

/// Encodes a bounded batch in the morphology envelope at a size the engine
/// chooses.
pub fn encode_batched_datagram(morphology: &mut MorphologyEngine, messages: &[Vec<u8>], path_mtu: usize) -> (r:
    Result<Vec<u8>>)
    ensures
        final(morphology).profile_spec() == old(morphology).profile_spec(),
        batch_encode_error(byte_views(messages@), path_mtu as nat) is Some ==> (r matches Err(e) && datagram_error_matches(
            e,
            path_mtu as nat,
            batch_encode_error(byte_views(messages@), path_mtu as nat)->0,
        )),
        r matches Ok(d) ==> d@.len() <= path_mtu && is_datagram_of(
            batch_encoding(byte_views(messages@)),
            d@.len(),
            d@,
        ),
{
    let payload = match encode_batch_payload(messages, path_mtu) {
        Ok(p) => p,
        Err(e) => return Err(e),
    };
    proof {
        lemma_batch_error_free(byte_views(messages@), (path_mtu - 7) as nat);
    }
    let target = match morphology.target_size(payload.len(), path_mtu) {
        Ok(t) => t,
        Err(e) => return Err(e),
    };
    encode_datagram(payload.as_slice(), target, path_mtu)
}

/// Checks a batch datagram's envelope and splits its payload into messages.
pub fn decode_batched_datagram(datagram: &[u8], path_mtu: usize) -> (r: Result<Vec<Vec<u8>>>)
    ensures
        r is Ok <==> datagram_decode_error(datagram@, path_mtu as nat) is None && batch_payload_decode(
            datagram_payload(datagram@),
        ) is Ok,
        r matches Ok(ms) ==> byte_views(ms@) == batch_payload_decode(datagram_payload(datagram@))->Ok_0,
{
    let payload = match decode_datagram(datagram, path_mtu) {
        Ok(p) => p,
        Err(e) => return Err(e),
    };
    decode_batch_payload(payload.as_slice())
}

/// Round trip: a batch datagram built from messages that
/// `encode_batch_payload` accepts decodes to the same messages.
pub proof fn lemma_batched_datagram_round_trip(msgs: Seq<Seq<u8>>, path_mtu: nat, datagram: Seq<u8>)
    requires
        batch_encode_error(msgs, path_mtu) is None,
        datagram.len() <= path_mtu,
        is_datagram_of(batch_encoding(msgs), datagram.len(), datagram),
    ensures
        datagram_decode_error(datagram, path_mtu) is None,
        batch_payload_decode(datagram_payload(datagram)) == Ok::<Seq<Seq<u8>>, Seq<char>>(msgs),
{
    lemma_batch_error_free(msgs, (path_mtu - 7) as nat);
    assert(batch_encoding(msgs).len() > 0) by {
        assert(msgs.last().len() >= 1);
    }
    lemma_datagram_round_trip(batch_encoding(msgs), datagram.len(), path_mtu, datagram);
    lemma_batch_round_trip(msgs, path_mtu);
}

} // verus!
