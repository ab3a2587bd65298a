//! Rules of the Windows TUN path: Wintun ring capacities, wait statuses,
//! adapter names, the runtime's expected SHA-256 and the keys of the
//! Windows Filtering Platform filters. Loading the runtime and calling
//! Windows are left to the caller.

use vstd::prelude::*;

use crate::digest::{sha256, sha256_spec};
use crate::error::{control_char, is_control, is_whitespace, msg, whitespace_char, Result, ShphError};
use crate::text::{append_decimal, decimal, hex_char, hex_digit, push_char};
use crate::wire::be32_bytes;
use vstd::string::StringSliceAdditionalSpecFns;

verus! {

/// Smallest Wintun ring.
pub const WINTUN_MIN_RING_CAPACITY: u32 = 131072;

/// Largest Wintun ring.
pub const WINTUN_MAX_RING_CAPACITY: u32 = 67108864;

/// Ring used when none is asked for.
pub const WINTUN_DEFAULT_RING_CAPACITY: u32 = 4194304;

/// The wait completed.
pub const WAIT_OBJECT_0: u32 = 0;

/// The wait timed out.
pub const WAIT_TIMEOUT: u32 = 258;

/// The wait failed.
pub const WAIT_FAILED: u32 = 4294967295;

/// Domain prefix of filter keys.
pub const FILTER_KEY_DOMAIN: &'static str = "SHPH-WFP-FILTER-V1";

/// The smallest and largest Wintun ring capacities.
pub fn ring_capacity_bounds() -> (b: (u32, u32))
    ensures
        b == (WINTUN_MIN_RING_CAPACITY, WINTUN_MAX_RING_CAPACITY),
{
    (WINTUN_MIN_RING_CAPACITY, WINTUN_MAX_RING_CAPACITY)
}

/// Refuses a ring capacity outside the Wintun bounds.
pub fn validate_ring_capacity(capacity: u32) -> (r: Result<()>)
    ensures
        r is Ok <==> WINTUN_MIN_RING_CAPACITY <= capacity <= WINTUN_MAX_RING_CAPACITY,
        r matches Err(e) ==> e matches ShphError::InvalidArgument(m) && m@
            == "Wintun ring capacity must be between 131072 and 67108864 bytes"@,
{
    if capacity < WINTUN_MIN_RING_CAPACITY || capacity > WINTUN_MAX_RING_CAPACITY {
        return Err(ShphError::InvalidArgument(msg("Wintun ring capacity must be between 131072 and 67108864 bytes")));
    }
    Ok(())
}

/// Maps the status of a wait for a readable ring to its outcome.
pub fn classify_wait_status(status: u32, last_error: u32) -> (r: Result<()>)
    ensures
        status == WAIT_OBJECT_0 ==> r is Ok,
        status == WAIT_TIMEOUT ==> r matches Err(ShphError::Timeout),
        status == WAIT_FAILED ==> (r matches Err(ShphError::Tun(m)) && m@ == "Wintun read wait failed: Win32 error "@
            + decimal(last_error as nat)),
        status != WAIT_OBJECT_0 && status != WAIT_TIMEOUT && status != WAIT_FAILED ==> (r matches Err(
            ShphError::Tun(m),
        ) && m@ == "Wintun read wait returned unexpected status "@ + decimal(status as nat)),
{
    if status == WAIT_OBJECT_0 {
        Ok(())
    } else if status == WAIT_TIMEOUT {
        Err(ShphError::Timeout)
    } else if status == WAIT_FAILED {
        let mut m = msg("Wintun read wait failed: Win32 error ");
        append_decimal(&mut m, last_error as u64);
        Err(ShphError::Tun(m))
    } else {
        let mut m = msg("Wintun read wait returned unexpected status ");
        append_decimal(&mut m, status as u64);
        Err(ShphError::Tun(m))
    }
}

/// Number of UTF-16 code units of a character sequence.
pub open spec fn utf16_len(s: Seq<char>) -> nat
    decreases s.len(),
{
    if s.len() == 0 {
        0
    } else {
        utf16_len(s.drop_last()) + if (s.last() as u32) <= 0xffff {
            1nat
        } else {
            2nat
        }
    }
}

/// The UTF-16 code units of a character sequence.
pub open spec fn utf16_units(s: Seq<char>) -> Seq<u16>
    decreases s.len(),
{
    if s.len() == 0 {
        Seq::empty()
    } else {
        let u = s.last() as u32;
        utf16_units(s.drop_last()) + if u <= 0xffff {
            seq![u as u16]
        } else {
            seq![(0xd800 + (u - 0x10000) / 1024) as u16, (0xdc00 + (u - 0x10000) % 1024) as u16]
        }
    }
}

/// Why a Wintun adapter name is refused, if it is: it must be 1 to 255
/// UTF-16 code units with no surrounding whitespace, NUL or control
/// character.
pub open spec fn adapter_name_ok(name: Seq<char>) -> bool {
    &&& name.len() > 0
    &&& utf16_len(name) <= 255
    &&& !whitespace_char(name[0])
    &&& !whitespace_char(name.last())
    &&& forall|i: int| 0 <= i < name.len() ==> !control_char(#[trigger] name[i])
}

proof fn lemma_utf16_len_step(s: Seq<char>, i: int)
    requires
        0 <= i < s.len(),
    ensures
        utf16_len(s.take(i + 1)) == utf16_len(s.take(i)) + if (s[i] as u32) <= 0xffff {
            1nat
        } else {
            2nat
        },
{
    assert(s.take(i + 1).drop_last() =~= s.take(i));
}

/// Checks a Wintun adapter name.
pub fn validate_adapter_name(name: &str) -> (r: Result<()>)
    ensures
        r is Ok <==> adapter_name_ok(name@),
        r matches Err(e) ==> e is InvalidArgument,
{
    let mut units: usize = 0;
    let mut long = false;
    let mut control = false;
    for c in it: name.chars()
        invariant
            it.seq() == name@,
            !long ==> units == utf16_len(name@.take(it.index() as int)) && units <= 255,
            long ==> utf16_len(name@.take(it.index() as int)) > 255,
            control <==> exists|i: int| 0 <= i < it.index() && control_char(#[trigger] name@[i]),
    {
        let ghost i = it.index() as int;
        proof {
            lemma_utf16_len_step(name@, i);
        }
        let w: usize = if c as u32 <= 0xffff { 1 } else { 2 };
        if !long {
            if units + w > 255 {
                long = true;
            } else {
                units = units + w;
            }
        }
        if is_control(c) {
            control = true;
        }
    }
    let count = name.unicode_len();
    proof {
        assert(name@.take(name@.len() as int) =~= name@);
    }
    let refused = count == 0 || long || control || is_whitespace(name.get_char(0)) || is_whitespace(
        name.get_char(count - 1),
    );
    if refused {
        return Err(
            ShphError::InvalidArgument(
                msg(
                    "Wintun adapter name must be 1..=255 UTF-16 code units with no surrounding whitespace, null bytes, or control characters",
                ),
            ),
        );
    }
    Ok(())
}

/// The NUL-terminated UTF-16 form of a Windows path or name; NUL inside
/// the text is refused.
pub fn wide_null(value: &str) -> (r: Result<Vec<u16>>)
    ensures
        r is Ok <==> forall|i: int| 0 <= i < value@.len() ==> #[trigger] value@[i] != '\0',
        r matches Ok(v) ==> v@ == utf16_units(value@).push(0u16),
        r matches Err(e) ==> e is InvalidArgument,
{
    let mut out: Vec<u16> = Vec::new();
    let mut nul = false;
    for c in it: value.chars()
        invariant
            it.seq() == value@,
            out@ == utf16_units(value@.take(it.index() as int)),
            nul <==> exists|i: int| 0 <= i < it.index() && #[trigger] value@[i] == '\0',
    {
        let ghost i = it.index() as int;
        proof {
            assert(value@.take(i + 1).drop_last() =~= value@.take(i));
        }
        if c == '\0' {
            nul = true;
        }
        let u = c as u32;
        if u <= 0xffff {
            out.push(u as u16);
        } else {
            let v = u - 0x10000;
            out.push((0xd800 + v / 1024) as u16);
            out.push((0xdc00 + v % 1024) as u16);
        }
        assert(out@ =~= utf16_units(value@.take(i + 1)));
    }
    proof {
        assert(value@.take(value@.len() as int) =~= value@);
    }
    if nul {
        return Err(ShphError::InvalidArgument(msg("Wintun path/name cannot contain null bytes")));
    }
    out.push(0u16);
    Ok(out)
}

/// An ASCII hexadecimal digit, either case.
pub open spec fn hex_digit_char(c: char) -> bool {
    ('0' <= c && c <= '9') || ('a' <= c && c <= 'f') || ('A' <= c && c <= 'F')
}

/// The value of an ASCII hexadecimal digit.
pub open spec fn hex_digit_value(c: char) -> nat {
    if '0' <= c && c <= '9' {
        (c as nat - '0' as nat) as nat
    } else if 'a' <= c && c <= 'f' {
        (c as nat - 'a' as nat + 10) as nat
    } else {
        (c as nat - 'A' as nat + 10) as nat
    }
}

/// The text with leading and trailing whitespace removed.
pub open spec fn trimmed(s: Seq<char>) -> Seq<char>
    decreases s.len(),
{
    if s.len() == 0 {
        s
    } else if whitespace_char(s[0]) {
        trimmed(s.drop_first())
    } else if whitespace_char(s.last()) {
        trimmed(s.drop_last())
    } else {
        s
    }
}

/// The bytes spelled by pairs of hexadecimal digits.
pub open spec fn hex_pairs(s: Seq<char>) -> Seq<u8> {
    Seq::new(s.len() / 2, |i: int| (hex_digit_value(s[2 * i]) * 16 + hex_digit_value(s[2 * i + 1])) as u8)
}

/// The characters of a string with leading and trailing whitespace removed.
fn trim_chars(value: &str) -> (t: Vec<char>)
    ensures
        t@ == trimmed(value@),
{
    let mut chars: Vec<char> = Vec::new();
    for c in it: value.chars()
        invariant
            it.seq() == value@,
            chars@ == value@.take(it.index() as int),
    {
        chars.push(c);
        assert(chars@ =~= value@.take(it.index() + 1));
    }
    assert(chars@ =~= value@);
    let mut lo: usize = 0;
    let mut hi: usize = chars.len();
    assert(chars@.subrange(0, chars@.len() as int) =~= value@);
    while lo < hi && (is_whitespace(chars[lo]) || is_whitespace(chars[hi - 1]))
        invariant
            lo <= hi <= chars@.len(),
            chars@ == value@,
            trimmed(chars@.subrange(lo as int, hi as int)) == trimmed(value@),
        decreases hi - lo,
    {
        let ghost cur = chars@.subrange(lo as int, hi as int);
        if is_whitespace(chars[lo]) {
            assert(cur.drop_first() =~= chars@.subrange(lo + 1, hi as int));
            lo = lo + 1;
        } else {
            assert(cur.drop_last() =~= chars@.subrange(lo as int, hi - 1));
            hi = hi - 1;
        }
    }
    proof {
        let cur = chars@.subrange(lo as int, hi as int);
        if lo < hi {
            assert(cur[0] == chars@[lo as int]);
            assert(cur.last() == chars@[hi - 1]);
        }
        assert(trimmed(cur) == cur);
    }
    let mut out: Vec<char> = Vec::new();
    let mut k: usize = lo;
    while k < hi
        invariant
            lo <= k <= hi <= chars@.len(),
            out@ == chars@.subrange(lo as int, k as int),
        decreases hi - k,
    {
        out.push(chars[k]);
        k = k + 1;
        assert(out@ =~= chars@.subrange(lo as int, k as int));
    }
    out
}

/// Parses the expected SHA-256 of the Wintun runtime: after trimming,
/// exactly 64 hexadecimal digits of either case.
pub fn parse_sha256_hex(value: &str) -> (r: Result<[u8; 32]>)
    ensures
        r is Ok <==> (trimmed(value@).len() == 64 && forall|i: int| 0 <= i < 64 ==> hex_digit_char(#[trigger] trimmed(value@)[i])),
        r matches Ok(d) ==> d@ == hex_pairs(trimmed(value@)),
        r matches Err(e) ==> e matches ShphError::InvalidArgument(m) && m@
            == "SHPH_WINTUN_SHA256 must be exactly 64 hexadecimal characters"@,
{
    let t = trim_chars(value);
    let mut all_hex = true;
    let mut i: usize = 0;
    while i < t.len()
        invariant
            i <= t@.len(),
            all_hex <==> forall|j: int| 0 <= j < i ==> hex_digit_char(#[trigger] t@[j]),
        decreases t@.len() - i,
    {
        let c = t[i];
        if !(('0' <= c && c <= '9') || ('a' <= c && c <= 'f') || ('A' <= c && c <= 'F')) {
            all_hex = false;
        }
        i = i + 1;
    }
    if t.len() != 64 || !all_hex {
        return Err(ShphError::InvalidArgument(msg("SHPH_WINTUN_SHA256 must be exactly 64 hexadecimal characters")));
    }
    let mut d = [0u8; 32];
    let mut k: usize = 0;
    while k < 32
        invariant
            k <= 32,
            t@.len() == 64,
            forall|j: int| 0 <= j < 64 ==> hex_digit_char(#[trigger] t@[j]),
            forall|j: int| 0 <= j < k ==> d@[j] == hex_pairs(t@)[j],
        decreases 32 - k,
    {
        let hi = digit_value(t[2 * k]);
        let lo = digit_value(t[2 * k + 1]);
        d[k] = hi * 16 + lo;
        k = k + 1;
    }
    assert(d@ =~= hex_pairs(t@));
    Ok(d)
}

fn digit_value(c: char) -> (v: u8)
    requires
        hex_digit_char(c),
    ensures
        v == hex_digit_value(c),
        v < 16,
{
    if '0' <= c && c <= '9' {
        (c as u32 - '0' as u32) as u8
    } else if 'a' <= c && c <= 'f' {
        (c as u32 - 'a' as u32 + 10) as u8
    } else {
        (c as u32 - 'A' as u32 + 10) as u8
    }
}

/// The input hashed into a filter key.
pub open spec fn filter_key_input(kind: Seq<u8>, index: u32) -> Seq<u8> {
    FILTER_KEY_DOMAIN@.map_values(|c: char| c as u8) + kind + be32_bytes(index)
}

/// The filter key: the first 16 bytes of the digest, marked as a version 5
/// identifier of the RFC 4122 variant.
pub open spec fn filter_key_spec(kind: Seq<u8>, index: u32) -> Seq<u8> {
    let h = sha256_spec(filter_key_input(kind, index));
    h.take(16).update(6, (h[6] % 16 + 0x50) as u8).update(8, (h[8] % 64 + 0x80) as u8)
}

/// The 16 big-endian bytes of the key of a filter of `kind` at `index`.
pub fn filter_key(kind: &str, index: u32) -> (key: [u8; 16])
    ensures
        key@ == filter_key_spec(kind.spec_bytes(), index),
{
    let mut input: Vec<u8> = Vec::new();
    let domain = FILTER_KEY_DOMAIN.as_bytes();
    proof {
        reveal_strlit("SHPH-WFP-FILTER-V1");
        vstd::utf8::is_ascii_chars_encode_utf8(FILTER_KEY_DOMAIN@);
    }
    crate::wire::push_bytes(&mut input, domain);
    crate::wire::push_bytes(&mut input, kind.as_bytes());
    crate::wire::push_be32(&mut input, index);
    assert(domain@ =~= FILTER_KEY_DOMAIN@.map_values(|c: char| c as u8));
    assert(input@ =~= filter_key_input(kind.spec_bytes(), index));
    let h = sha256(input.as_slice());
    let mut key = [0u8; 16];
    let mut i: usize = 0;
    while i < 16
        invariant
            i <= 16,
            h@.len() == 32,
            forall|j: int| 0 <= j < i ==> key@[j] == h@[j],
        decreases 16 - i,
    {
        key[i] = h[i];
        i = i + 1;
    }
    key[6] = h[6] % 16 + 0x50;
    key[8] = h[8] % 64 + 0x80;
    assert(key@ =~= filter_key_spec(kind.spec_bytes(), index));
    key
}

/// Sixteen to the power `k`.
pub open spec fn pow16(k: nat) -> nat
    decreases k,
{
    if k == 0 {
        1
    } else {
        16 * pow16((k - 1) as nat)
    }
}

/// Eight lowercase hexadecimal digits of a 32-bit value, zero-padded.
pub open spec fn hex8(v: u32) -> Seq<char> {
    Seq::new(8, |k: int| hex_char(((v as nat / pow16((7 - k) as nat)) % 16) as nat))
}

/// The error reported when a Windows Filtering Platform call fails.
pub fn wfp_error(operation: &str, status: u32) -> (e: ShphError)
    ensures
        e matches ShphError::PermissionDenied(m) && m@ == operation@ + " failed with Windows Filtering Platform status 0x"@
            + hex8(status) + "; administrator elevation is required"@,
{
    let mut m = String::from_str(operation);
    m.append(" failed with Windows Filtering Platform status 0x");
    let ghost start = m@;
    let mut div: u32 = 0x10000000;
    let mut k: usize = 0;
    proof {
        reveal_with_fuel(pow16, 8);
    }
    while k < 8
        invariant
            k <= 8,
            div as nat == pow16((7 - k) as nat) || (k == 8 && div == 0),
            m@ == start + hex8(status).take(k as int),
        decreases 8 - k,
    {
        proof {
            reveal_with_fuel(pow16, 8);
        }
        let d = ((status / div) % 16) as u8;
        push_char(&mut m, hex_digit(d));
        assert(m@ =~= start + hex8(status).take(k + 1));
        div = div / 16;
        k = k + 1;
    }
    assert(hex8(status).take(8) =~= hex8(status));
    m.append("; administrator elevation is required");
    ShphError::PermissionDenied(m)
}

} // verus!
