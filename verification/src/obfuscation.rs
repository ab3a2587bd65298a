//! Shared traffic-shaping profiles.
//!
//! Profile padding is applied before transport AEAD encryption, so the
//! original payload length and the randomized tail stay inside the
//! authenticated envelope, and TCP and QUIC share one discrete size policy.

use vstd::prelude::*;

use crate::error::{is_whitespace, msg, whitespace_char, Result, ShphError};
use crate::text::{append_decimal, decimal};
use crate::wire::be16_bytes;

verus! {

/// Length of the envelope header: magic, tier id and a big-endian u16 length.
pub const PROFILE_HEADER_BYTES: usize = 7;

/// Largest random jitter added to a low-tier frame.
pub const LOW_JITTER_BYTES: usize = 7;

/// Discrete application-frame padding tiers shared by stream and datagram
/// transports.
#[derive(Debug, Clone, Copy, PartialEq, Eq, Structural)]
pub enum ProfileTier {
    /// Small interactive traffic: 128-byte and 256-byte buckets with up to
    /// seven bytes of bounded jitter.
    Low,
    /// General traffic: 128, 256, 512, 1024, and 1360-byte buckets.
    Medium,
    /// Bulk/video traffic: 512, 1024, and 1360-byte buckets.
    High,
}

/// The name of a tier.
pub open spec fn tier_name(p: ProfileTier) -> Seq<char> {
    match p {
        ProfileTier::Low => "low"@,
        ProfileTier::Medium => "medium"@,
        ProfileTier::High => "high"@,
    }
}

/// The wire id of a tier.
pub open spec fn tier_id(p: ProfileTier) -> u8 {
    match p {
        ProfileTier::Low => 0,
        ProfileTier::Medium => 1,
        ProfileTier::High => 2,
    }
}

/// The frame sizes of a tier, ascending.
pub open spec fn tier_sizes(p: ProfileTier) -> Seq<usize> {
    match p {
        ProfileTier::Low => seq![128usize, 256],
        ProfileTier::Medium => seq![128usize, 256, 512, 1024, 1360],
        ProfileTier::High => seq![512usize, 1024, 1360],
    }
}

/// The first size in `sizes` that is at least `min`.
pub open spec fn first_fit(sizes: Seq<usize>, min: nat) -> Option<usize>
    decreases sizes.len(),
{
    if sizes.len() == 0 {
        None
    } else if sizes[0] >= min {
        Some(sizes[0])
    } else {
        first_fit(sizes.drop_first(), min)
    }
}

/// The random jitter a tier adds for a random byte.
pub open spec fn jitter_of(p: ProfileTier, random: u8) -> nat {
    if p is Low {
        (random % 8) as nat
    } else {
        0
    }
}

/// Frame lengths a tier accepts on receipt.
pub open spec fn accepts_len(p: ProfileTier, len: nat) -> bool {
    match p {
        ProfileTier::Low => (128 <= len <= 135) || (256 <= len <= 263),
        _ => tier_sizes(p).contains(len as usize) && len <= usize::MAX,
    }
}

/// The envelope marker.
pub open spec fn profile_magic() -> Seq<u8> {
    seq![0x53u8, 0x50, 0x41, 0x44]
}

/// The envelope header for a tier and a payload length.
pub open spec fn profile_header(p: ProfileTier, payload_len: nat) -> Seq<u8> {
    profile_magic().push(tier_id(p)) + be16_bytes(payload_len as u16)
}

/// The message of the error for a payload that no tier size can carry.
pub open spec fn cannot_carry_message(p: ProfileTier, payload_len: nat) -> Seq<char> {
    tier_name(p) + " profile cannot carry a "@ + decimal(payload_len) + "-byte payload"@
}

/// A frame that `apply_profile` can produce for a payload: a tier size with
/// the tier's jitter, the header, the payload, then any tail bytes.
pub open spec fn is_profile_frame(p: ProfileTier, payload: Seq<u8>, frame: Seq<u8>) -> bool {
    &&& payload.len() + 7 <= usize::MAX
    &&& first_fit(tier_sizes(p), payload.len() + 7) matches Some(base)
    &&& exists|r: u8| frame.len() == base + jitter_of(p, r)
    &&& frame.subrange(0, 7 + payload.len() as int) == profile_header(p, payload.len()) + payload
}

/// What a profile frame holds, byte by byte: its length is the smallest
/// tier size that fits the header and payload, plus at most the tier's
/// jitter; it starts with the `SPAD` marker and the tier id, then the
/// payload length in big-endian order, then the payload.
pub proof fn lemma_profile_frame_fields(p: ProfileTier, payload: Seq<u8>, frame: Seq<u8>)
    requires
        is_profile_frame(p, payload, frame),
    ensures
        first_fit(tier_sizes(p), payload.len() + 7) matches Some(base) && base <= frame.len() <= base + (if p is Low {
            LOW_JITTER_BYTES as nat
        } else {
            0
        }) && base >= payload.len() + 7,
        frame.subrange(0, 4) == profile_magic(),
        frame[4] == tier_id(p),
        declared_len(frame) == payload.len(),
        frame.subrange(7, 7 + payload.len() as int) == payload,
{
    let base = first_fit(tier_sizes(p), payload.len() + 7)->0;
    lemma_first_fit_bounded(tier_sizes(p), payload.len() + 7);
    let r = choose|r: u8| frame.len() == base + jitter_of(p, r);
    let h = profile_header(p, payload.len());
    let pre = frame.subrange(0, 7 + payload.len() as int);
    assert(pre == h + payload);
    assert(h.len() == 7);
    assert(frame.subrange(0, 4) =~= profile_magic()) by {
        assert forall|i: int| 0 <= i < 4 implies frame[i] == profile_magic()[i] by {
            assert(frame[i] == pre[i]);
            assert(pre[i] == h[i]);
        }
    }
    assert(frame[4] == pre[4] && pre[4] == h[4]);
    assert(frame[5] == pre[5] && pre[5] == h[5]);
    assert(frame[6] == pre[6] && pre[6] == h[6]);
    let l = payload.len() as u16;
    assert(payload.len() < 65536);
    assert(h[5] == (l / 256) as u8 && h[6] == (l % 256) as u8);
    assert(frame.subrange(7, 7 + payload.len() as int) =~= payload) by {
        assert forall|i: int| 0 <= i < payload.len() implies frame[7 + i] == payload[i] by {
            assert(frame[7 + i] == pre[7 + i]);
        }
    }
}

/// Whether a frame carries the envelope marker.
pub open spec fn has_profile_marker(frame: Seq<u8>) -> bool {
    frame.len() >= 7 && frame.subrange(0, 4) == profile_magic()
}

/// The payload length a marked frame declares.
pub open spec fn declared_len(frame: Seq<u8>) -> nat {
    (frame[5] as nat) * 256 + frame[6] as nat
}

/// What `remove_profile` yields: `Some(payload)`, or `None` when the
/// envelope is refused.
pub open spec fn unprofile(p: ProfileTier, frame: Seq<u8>) -> Option<Seq<u8>> {
    if !has_profile_marker(frame) {
        Some(frame)
    } else if frame[4] != tier_id(p) || !accepts_len(p, frame.len()) || declared_len(frame) > frame.len() - 7 {
        None
    } else {
        Some(frame.subrange(7, 7 + declared_len(frame) as int))
    }
}

/// The message of the error `remove_profile` reports for a refused envelope.
pub open spec fn unprofile_error(p: ProfileTier, frame: Seq<u8>) -> Seq<char> {
    if frame[4] != tier_id(p) {
        "profile envelope tier mismatch"@
    } else if !accepts_len(p, frame.len()) {
        "profile envelope size is not a canonical tier"@
    } else {
        "profile envelope payload length exceeds frame"@
    }
}

proof fn lemma_first_fit_skip(sizes: Seq<usize>, min: nat, i: int)
    requires
        0 <= i < sizes.len(),
        sizes[i] < min,
    ensures
        first_fit(sizes.subrange(i, sizes.len() as int), min) == first_fit(
            sizes.subrange(i + 1, sizes.len() as int),
            min,
        ),
{
    assert(sizes.subrange(i, sizes.len() as int).drop_first() =~= sizes.subrange(i + 1, sizes.len() as int));
}

impl ProfileTier {
    /// The tier's name.
    pub fn as_str(self) -> (s: &'static str)
        ensures
            s@ == tier_name(self),
    {
        match self {
            ProfileTier::Low => "low",
            ProfileTier::Medium => "medium",
            ProfileTier::High => "high",
        }
    }

    /// The tier's wire id.
    pub fn id(self) -> (id: u8)
        ensures
            id == tier_id(self),
    {
        match self {
            ProfileTier::Low => 0,
            ProfileTier::Medium => 1,
            ProfileTier::High => 2,
        }
    }

    /// The tier's frame sizes, ascending.
    pub fn base_tiers(self) -> (sizes: Vec<usize>)
        ensures
            sizes@ == tier_sizes(self),
    {
        let v = match self {
            ProfileTier::Low => vec![128, 256],
            ProfileTier::Medium => vec![128, 256, 512, 1024, 1360],
            ProfileTier::High => vec![512, 1024, 1360],
        };
        assert(v@ =~= tier_sizes(self));
        v
    }

    /// Maps the name of a Shroud lab profile onto the shared transport tier.
    pub fn from_shroud_profile(name: &str) -> (p: Self)
        ensures
            name@ == "low-latency"@ ==> p == ProfileTier::Low,
            (name@ == "bulk"@ || name@ == "extreme-lab"@) ==> p == ProfileTier::High,
            (name@ != "low-latency"@ && name@ != "bulk"@ && name@ != "extreme-lab"@) ==> p
                == ProfileTier::Medium,
    {
        proof {
            reveal_strlit("low-latency");
            reveal_strlit("bulk");
            reveal_strlit("extreme-lab");
            assert("low-latency"@.len() == 11 && "bulk"@.len() == 4 && "extreme-lab"@.len() == 11);
            assert("low-latency"@[0] != "extreme-lab"@[0]);
        }
        if crate::error::str_eq(name, "low-latency") {
            ProfileTier::Low
        } else if crate::error::str_eq(name, "bulk") || crate::error::str_eq(name, "extreme-lab") {
            ProfileTier::High
        } else {
            ProfileTier::Medium
        }
    }

    fn accepts_frame_len(self, len: usize) -> (b: bool)
        ensures
            b == accepts_len(self, len as nat),
    {
        match self {
            ProfileTier::Low => (128 <= len && len <= 135) || (256 <= len && len <= 263),
            ProfileTier::Medium => {
                let r = len == 128 || len == 256 || len == 512 || len == 1024 || len == 1360;
                proof {
                    if r {
                        assert(tier_sizes(self).contains(len));
                    } else {
                        assert forall|i: int| 0 <= i < tier_sizes(self).len() implies tier_sizes(self)[i]
                            != len by {}
                    }
                }
                r
            },
            ProfileTier::High => {
                let r = len == 512 || len == 1024 || len == 1360;
                proof {
                    if r {
                        assert(tier_sizes(self).contains(len));
                    } else {
                        assert forall|i: int| 0 <= i < tier_sizes(self).len() implies tier_sizes(self)[i]
                            != len by {}
                    }
                }
                r
            },
        }
    }
}

/// The smallest tier size that holds the header and a payload of the given
/// length; refused when no size is large enough.
pub fn profile_base_len(profile: ProfileTier, payload_len: usize) -> (r: Result<usize>)
    ensures
        payload_len + 7 > usize::MAX ==> (r matches Err(ShphError::Obfuscation(m)) && m@
            == "profile payload length overflow"@),
        payload_len + 7 <= usize::MAX ==> match first_fit(tier_sizes(profile), (payload_len + 7) as nat) {
            Some(base) => r == Ok::<usize, ShphError>(base),
            None => r matches Err(ShphError::Obfuscation(m)) && m@ == cannot_carry_message(
                profile,
                payload_len as nat,
            ),
        },
{
    if payload_len > usize::MAX - PROFILE_HEADER_BYTES {
        return Err(ShphError::Obfuscation(msg("profile payload length overflow")));
    }
    let minimum = payload_len + PROFILE_HEADER_BYTES;
    let sizes = profile.base_tiers();
    let ghost all = sizes@;
    assert(all.subrange(0, all.len() as int) =~= all);
    let mut i: usize = 0;
    while i < sizes.len()
        invariant
            sizes@ == all,
            all == tier_sizes(profile),
            minimum == payload_len + 7,
            i <= all.len(),
            first_fit(all, minimum as nat) == first_fit(all.subrange(i as int, all.len() as int), minimum as nat),
        decreases all.len() - i,
    {
        if sizes[i] >= minimum {
            proof {
                let rest = all.subrange(i as int, all.len() as int);
                assert(rest[0] == all[i as int]);
            }
            return Ok(sizes[i]);
        }
        proof {
            lemma_first_fit_skip(all, minimum as nat, i as int);
        }
        i = i + 1;
    }
    proof {
        assert(all.subrange(all.len() as int, all.len() as int) =~= Seq::<usize>::empty());
    }
    let mut m = String::from_str(profile.as_str());
    m.append(" profile cannot carry a ");
    append_decimal(&mut m, payload_len as u64);
    m.append("-byte payload");
    Err(ShphError::Obfuscation(m))
}

/// Assembles an envelope: header, payload, then the given tail bytes.
/// Payloads longer than a u16 can declare are refused.
pub fn profile_envelope(profile: ProfileTier, payload: &[u8], tail: &[u8]) -> (r: Result<Vec<u8>>)
    ensures
        payload@.len() > 0xffff ==> (r matches Err(ShphError::Obfuscation(m)) && m@
            == "profile payload exceeds u16"@),
        payload@.len() <= 0xffff ==> (r matches Ok(f) && f@ == profile_header(profile, payload@.len())
            + payload@ + tail@),
{
    if payload.len() > 0xffff {
        return Err(ShphError::Obfuscation(msg("profile payload exceeds u16")));
    }
    let mut framed: Vec<u8> = Vec::new();
    framed.push(0x53);
    framed.push(0x50);
    framed.push(0x41);
    framed.push(0x44);
    framed.push(profile.id());
    crate::wire::push_be16(&mut framed, payload.len() as u16);
    crate::wire::push_bytes(&mut framed, payload);
    crate::wire::push_bytes(&mut framed, tail);
    assert(framed@ =~= profile_header(profile, payload@.len()) + payload@ + tail@);
    Ok(framed)
}

/// Calls `rand::rngs::OsRng::try_fill_bytes` on `n` bytes. Nothing is stated
/// of the bytes, nor of when the source fails; a filled buffer has `n` bytes.
#[verifier::external_body]
pub(crate) fn os_random_bytes(n: usize) -> (out: Option<Vec<u8>>)
    ensures
        out matches Some(v) ==> v@.len() == n,
{
    let mut v = vec![0u8; n];
    match rand::RngCore::try_fill_bytes(&mut rand::rngs::OsRng, &mut v) {
        Ok(()) => Some(v),
        Err(_) => None,
    }
}

/// Tail bytes a frame carries after the payload: the chosen tier size plus
/// the tier's jitter for `random`, less the header and the payload.
pub open spec fn profile_pad_len(p: ProfileTier, payload_len: nat, random: u8) -> int {
    match first_fit(tier_sizes(p), payload_len + 7) {
        Some(base) => base + jitter_of(p, random) - 7 - payload_len,
        None => 0,
    }
}

/// Frames a payload with the given random byte (the Low tier's jitter is
/// `random % 8`) and the given tail bytes, which must be exactly as many as
/// the frame length leaves after the header and payload.
pub fn apply_profile_with_randomness(profile: ProfileTier, payload: &[u8], random: u8, tail: &[u8]) -> (r: Result<
    Vec<u8>,
>)
    requires
        payload@.len() + 7 <= usize::MAX && first_fit(tier_sizes(profile), payload@.len() + 7) is Some
            ==> tail@.len() == profile_pad_len(profile, payload@.len(), random),
    ensures
        payload@.len() + 7 > usize::MAX ==> (r matches Err(ShphError::Obfuscation(m)) && m@
            == "profile payload length overflow"@),
        payload@.len() + 7 <= usize::MAX && first_fit(tier_sizes(profile), payload@.len() + 7) is None
            ==> (r matches Err(ShphError::Obfuscation(m)) && m@ == cannot_carry_message(
            profile,
            payload@.len(),
        )),
        payload@.len() + 7 <= usize::MAX && first_fit(tier_sizes(profile), payload@.len() + 7) is Some
            ==> (r matches Ok(f) && f@ == profile_header(profile, payload@.len()) + payload@ + tail@ && f@.len()
            == first_fit(tier_sizes(profile), payload@.len() + 7)->0 + jitter_of(profile, random)),
{
    let base = match profile_base_len(profile, payload.len()) {
        Ok(b) => b,
        Err(e) => return Err(e),
    };
    proof {
        lemma_first_fit_bounded(tier_sizes(profile), payload@.len() + 7);
    }
    let framed = profile_envelope(profile, payload, tail);
    framed
}

/// Applies a bounded, authenticated profile envelope to an application
/// payload: marker, tier id, payload length, payload and random tail bytes.
/// Call [`remove_profile`] after AEAD decryption.
pub fn apply_profile(profile: ProfileTier, payload: &[u8]) -> (r: Result<Vec<u8>>)
    ensures
        payload@.len() + 7 > usize::MAX ==> (r matches Err(ShphError::Obfuscation(m)) && m@
            == "profile payload length overflow"@),
        payload@.len() + 7 <= usize::MAX && first_fit(tier_sizes(profile), payload@.len() + 7) is None
            ==> (r matches Err(ShphError::Obfuscation(m)) && m@ == cannot_carry_message(
            profile,
            payload@.len(),
        )),
        r matches Ok(f) ==> is_profile_frame(profile, payload@, f@),
        r matches Ok(f) ==> exists|random: u8, tail: Seq<u8>|
            #![trigger profile_pad_len(profile, payload@.len(), random), profile_header(profile, payload@.len()) + payload@ + tail]
            tail.len() == profile_pad_len(profile, payload@.len(), random) && profile_header(profile, payload@.len())
                + payload@ + tail == f@ && (!(profile is Low) ==> random == 0),
        r matches Err(e) ==> e is Obfuscation || e is Crypto,
        payload@.len() + 7 <= usize::MAX && first_fit(tier_sizes(profile), payload@.len() + 7) is Some
            ==> (r is Ok || (r matches Err(ShphError::Crypto(m)) && m@ == "OS randomness unavailable"@)),
        payload@.len() + 7 <= usize::MAX && !(profile is Low) && first_fit(tier_sizes(profile), payload@.len() + 7)
            == Some((payload@.len() + 7) as usize) ==> (r matches Ok(f) && f@ == profile_header(profile, payload@.len())
            + payload@),
{
    let base = match profile_base_len(profile, payload.len()) {
        Ok(b) => b,
        Err(e) => return Err(e),
    };
    let random: u8 = if profile == ProfileTier::Low {
        match os_random_bytes(1) {
            Some(v) => v[0],
            None => return Err(ShphError::Crypto(msg("OS randomness unavailable"))),
        }
    } else {
        0
    };
    let jitter: usize = if profile == ProfileTier::Low { (random % 8) as usize } else { 0 };
    proof {
        lemma_first_fit_bounded(tier_sizes(profile), payload@.len() + 7);
    }
    let frame_len = base + jitter;
    let pad = frame_len - PROFILE_HEADER_BYTES - payload.len();
    let tail: Vec<u8> = if pad > 0 {
        match os_random_bytes(pad) {
            Some(v) => v,
            None => return Err(ShphError::Crypto(msg("OS randomness unavailable"))),
        }
    } else {
        Vec::new()
    };
    assert(pad == 0 ==> tail@ =~= Seq::<u8>::empty());
    let framed = apply_profile_with_randomness(profile, payload, random, tail.as_slice());
    proof {
        if framed is Ok {
            let f = framed->Ok_0;
            assert(f@.subrange(0, 7 + payload@.len() as int) =~= profile_header(profile, payload@.len()) + payload@);
            assert(tail@.len() == profile_pad_len(profile, payload@.len(), random));
            assert(profile_header(profile, payload@.len()) + payload@ + tail@ == f@);
            if pad == 0 {
                assert(f@ =~= profile_header(profile, payload@.len()) + payload@);
            }
        }
    }
    framed
}

proof fn lemma_first_fit_bounded(sizes: Seq<usize>, min: nat)
    ensures
        first_fit(sizes, min) matches Some(b) ==> b >= min && sizes.contains(b),
    decreases sizes.len(),
{
    if sizes.len() > 0 && sizes[0] < min {
        lemma_first_fit_bounded(sizes.drop_first(), min);
        if first_fit(sizes, min) is Some {
            let b = first_fit(sizes, min)->0;
            let k = choose|k: int| 0 <= k < sizes.drop_first().len() && sizes.drop_first()[k] == b;
            assert(sizes[k + 1] == b);
        }
    } else if sizes.len() > 0 {
        assert(sizes[0] == sizes[0]);
    }
}

/// Removes a profile envelope after transport AEAD decryption. A frame
/// without the marker is returned unchanged, for legacy unprofiled peers; a
/// present but malformed envelope is refused.
pub fn remove_profile(profile: ProfileTier, framed: &[u8]) -> (r: Result<Vec<u8>>)
    ensures
        r is Ok <==> unprofile(profile, framed@) is Some,
        r matches Ok(p) ==> p@ == unprofile(profile, framed@)->0,
        r matches Err(e) ==> e matches ShphError::Obfuscation(m) && m@ == unprofile_error(
            profile,
            framed@,
        ),
{
    if framed.len() < PROFILE_HEADER_BYTES || !(framed[0] == 0x53 && framed[1] == 0x50 && framed[2]
        == 0x41 && framed[3] == 0x44) {
        proof {
            if framed@.len() >= 7 && framed@.subrange(0, 4) == profile_magic() {
                assert(framed@.subrange(0, 4)[0] == framed@[0]);
                assert(framed@.subrange(0, 4)[1] == framed@[1]);
                assert(framed@.subrange(0, 4)[2] == framed@[2]);
                assert(framed@.subrange(0, 4)[3] == framed@[3]);
            }
        }
        return Ok(crate::wire::copy_bytes(framed));
    }
    assert(framed@.subrange(0, 4) =~= profile_magic());
    if framed[4] != profile.id() {
        return Err(ShphError::Obfuscation(msg("profile envelope tier mismatch")));
    }
    if !profile.accepts_frame_len(framed.len()) {
        return Err(ShphError::Obfuscation(msg("profile envelope size is not a canonical tier")));
    }
    let payload_len: usize = (framed[5] as usize) * 256 + framed[6] as usize;
    if payload_len > framed.len() - PROFILE_HEADER_BYTES {
        return Err(ShphError::Obfuscation(msg("profile envelope payload length exceeds frame")));
    }
    let mut out: Vec<u8> = Vec::new();
    let mut i: usize = PROFILE_HEADER_BYTES;
    let end = PROFILE_HEADER_BYTES + payload_len;
    while i < end
        invariant
            end == 7 + payload_len,
            7 <= i <= 7 + payload_len,
            7 + payload_len <= framed@.len(),
            out@ == framed@.subrange(7, i as int),
        decreases 7 + payload_len - i,
    {
        out.push(framed[i]);
        i = i + 1;
        assert(out@ =~= framed@.subrange(7, i as int));
    }
    Ok(out)
}

/// Round trip: removing the envelope from any frame that `apply_profile`
/// can produce gives back the payload.
pub proof fn lemma_profile_round_trip(p: ProfileTier, payload: Seq<u8>, frame: Seq<u8>)
    requires
        is_profile_frame(p, payload, frame),
    ensures
        unprofile(p, frame) == Some(payload),
{
    let base = first_fit(tier_sizes(p), payload.len() + 7)->0;
    lemma_first_fit_bounded(tier_sizes(p), payload.len() + 7);
    let r = choose|r: u8| frame.len() == base + jitter_of(p, r);
    let h = frame.subrange(0, 7 + payload.len() as int);
    assert(h == profile_header(p, payload.len()) + payload);
    assert(frame[0] == h[0] && frame[1] == h[1] && frame[2] == h[2] && frame[3] == h[3]);
    assert(frame.subrange(0, 4) =~= profile_magic());
    assert(frame[4] == h[4]);
    assert(frame[5] == h[5] && frame[6] == h[6]);
    assert(base <= 1360);
    assert(declared_len(frame) == payload.len());
    assert(accepts_len(p, frame.len())) by {
        if !(p is Low) {
            assert(frame.len() == base);
        }
    }
    assert forall|i: int| 0 <= i < payload.len() implies frame.subrange(7, 7 + payload.len() as int)[i]
        == payload[i] by {
        assert(h[7 + i] == payload[i]);
    }
    assert(frame.subrange(7, 7 + payload.len() as int) =~= payload);
}

} // verus!

verus! {

/// Leading Unicode whitespace removed.
pub open spec fn trim_start(s: Seq<char>) -> Seq<char>
    decreases s.len(),
{
    if s.len() > 0 && whitespace_char(s[0]) {
        trim_start(s.drop_first())
    } else {
        s
    }
}

/// Trailing Unicode whitespace removed.
pub open spec fn trim_end(s: Seq<char>) -> Seq<char>
    decreases s.len(),
{
    if s.len() > 0 && whitespace_char(s.last()) {
        trim_end(s.drop_last())
    } else {
        s
    }
}

/// A code point with ASCII capitals folded to lower case.
pub open spec fn ascii_lower_code(u: u32) -> u32 {
    if 65 <= u <= 90 {
        (u + 32) as u32
    } else {
        u
    }
}

/// The code points of a character sequence.
pub open spec fn codes(s: Seq<char>) -> Seq<u32> {
    s.map_values(|c: char| c as u32)
}

/// A profile name as `parse_name` compares it: trimmed, as code points with
/// ASCII capitals folded to lower case.
pub open spec fn normalized_name(s: Seq<char>) -> Seq<u32> {
    codes(trim_end(trim_start(s))).map_values(|u: u32| ascii_lower_code(u))
}

/// The tier a normalized profile name selects.
pub open spec fn tier_for_name(n: Seq<u32>) -> Option<ProfileTier> {
    if n == codes("low"@) || n == codes("low-latency"@) {
        Some(ProfileTier::Low)
    } else if n == codes("medium"@) || n == codes("balanced"@) {
        Some(ProfileTier::Medium)
    } else if n == codes("high"@) || n == codes("bulk"@) || n == codes("extreme"@) || n == codes(
        "extreme-lab"@,
    ) {
        Some(ProfileTier::High)
    } else {
        None
    }
}

proof fn lemma_trim_start_skip(s: Seq<char>, i: int)
    requires
        0 <= i < s.len(),
        whitespace_char(s[i]),
    ensures
        trim_start(s.subrange(i, s.len() as int)) == trim_start(s.subrange(i + 1, s.len() as int)),
{
    assert(s.subrange(i, s.len() as int).drop_first() =~= s.subrange(i + 1, s.len() as int));
}

proof fn lemma_trim_end_skip(s: Seq<char>, j: int)
    requires
        0 < j <= s.len(),
        whitespace_char(s[j - 1]),
    ensures
        trim_end(s.subrange(0, j)) == trim_end(s.subrange(0, j - 1)),
{
    assert(s.subrange(0, j).drop_last() =~= s.subrange(0, j - 1));
}

fn chars_match(v: &Vec<u32>, s: &str) -> (b: bool)
    ensures
        b == (v@ == codes(s@)),
{
    let n = s.unicode_len();
    if n != v.len() {
        return false;
    }
    let mut j: usize = 0;
    while j < n
        invariant
            n == s@.len(),
            n == v@.len(),
            j <= n,
            forall|k: int| 0 <= k < j ==> v@[k] == s@[k] as u32,
        decreases n - j,
    {
        if v[j] != s.get_char(j) as u32 {
            proof {
                assert(codes(s@)[j as int] == s@[j as int] as u32);
            }
            return false;
        }
        j = j + 1;
    }
    assert(v@ =~= codes(s@));
    true
}

impl ProfileTier {
    /// Parses a profile name: surrounding whitespace is ignored, ASCII case
    /// is folded, and the tier names and their aliases are accepted.
    pub fn parse_name(value: &str) -> (r: Result<Self>)
        ensures
            match tier_for_name(normalized_name(value@)) {
                Some(p) => r == Ok::<ProfileTier, ShphError>(p),
                None => r matches Err(ShphError::Obfuscation(m)) && m@ == "unsupported padding profile: "@
                    + value@,
            },
    {
        let mut all: Vec<char> = Vec::new();
        for c in it: value.chars()
            invariant
                it.seq() == value@,
                all@ == value@.subrange(0, it.index() as int),
        {
            all.push(c);
            proof {
                assert(all@ =~= value@.subrange(0, it.index() + 1));
            }
        }
        assert(all@ =~= value@);
        let n = all.len();
        let mut start: usize = 0;
        while start < n && is_whitespace(all[start])
            invariant
                n == all@.len(),
                start <= n,
                trim_start(all@) == trim_start(all@.subrange(start as int, n as int)),
            decreases n - start,
        {
            proof {
                lemma_trim_start_skip(all@, start as int);
            }
            start = start + 1;
        }
        let ghost ts = all@.subrange(start as int, n as int);
        proof {
            assert(all@.subrange(0, n as int) =~= all@);
            if start < n {
                assert(ts[0] == all@[start as int]);
            }
            assert(trim_start(all@) == ts);
        }
        let mut end: usize = n;
        while end > start && is_whitespace(all[end - 1])
            invariant
                n == all@.len(),
                start <= end <= n,
                ts == all@.subrange(start as int, n as int),
                trim_end(ts) == trim_end(all@.subrange(start as int, end as int)),
            decreases end - start,
        {
            proof {
                let t = all@.subrange(start as int, end as int);
                lemma_trim_end_skip(t, (end - start) as int);
                assert(t.subrange(0, (end - start) as int) =~= t);
                assert(t.subrange(0, (end - start - 1) as int) =~= all@.subrange(start as int, end - 1));
            }
            end = end - 1;
        }
        let mut lowered: Vec<u32> = Vec::new();
        let mut k: usize = start;
        while k < end
            invariant
                start <= k <= end <= n,
                n == all@.len(),
                lowered@ == codes(all@.subrange(start as int, k as int)).map_values(|u: u32| ascii_lower_code(u)),
            decreases end - k,
        {
            let u = all[k] as u32;
            let l = if 65 <= u && u <= 90 { u + 32 } else { u };
            lowered.push(l);
            k = k + 1;
            assert(lowered@ =~= codes(all@.subrange(start as int, k as int)).map_values(|u: u32| ascii_lower_code(u)));
        }
        proof {
            let t = all@.subrange(start as int, end as int);
            if end > start {
                assert(t.last() == all@[end - 1]);
            }
            assert(trim_end(t) == t);
            assert(normalized_name(value@) =~= lowered@);
        }
        if chars_match(&lowered, "low") || chars_match(&lowered, "low-latency") {
            Ok(ProfileTier::Low)
        } else if chars_match(&lowered, "medium") || chars_match(&lowered, "balanced") {
            Ok(ProfileTier::Medium)
        } else if chars_match(&lowered, "high") || chars_match(&lowered, "bulk") || chars_match(
            &lowered,
            "extreme",
        ) || chars_match(&lowered, "extreme-lab") {
            Ok(ProfileTier::High)
        } else {
            let mut m = String::from_str("unsupported padding profile: ");
            m.append(value);
            Err(ShphError::Obfuscation(m))
        }
    }
}

impl core::str::FromStr for ProfileTier {
    type Err = ShphError;

    fn from_str(value: &str) -> (r: Result<Self>)
        ensures
            match tier_for_name(normalized_name(value@)) {
                Some(p) => r == Ok::<ProfileTier, ShphError>(p),
                None => r matches Err(ShphError::Obfuscation(m)) && m@ == "unsupported padding profile: "@
                    + value@,
            },
    {
        ProfileTier::parse_name(value)
    }
}

} // verus!
