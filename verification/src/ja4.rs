//! Passive JA4-compatible TLS ClientHello fingerprints.
//!
//! The exact JA4 algorithm is available for callers that provide complete
//! ClientHello metadata. A live TLS hook exposes only a public subset of that
//! metadata, so live observations are marked partial rather than presented
//! as exact JA4 values. Nothing here changes a ClientHello.

use std::collections::VecDeque;
use vstd::prelude::*;

use crate::digest::{sha256, sha256_spec};
use crate::error::{msg, Result, ShphError};
use crate::text::{
    append_hex_bytes, append_hex_number, digit_char, hex_bytes, hex_char, hex_digit, hex_number,
    push_char,
};

verus! {

/// Largest number of values kept from one observed list.
pub const MAX_OBSERVED_LIST_VALUES: usize = 128;

/// Largest number of ALPN values kept in an observation.
pub const MAX_OBSERVED_ALPN_VALUES: usize = 16;

/// Largest number of bytes kept from one ALPN value.
pub const MAX_OBSERVED_ALPN_BYTES: usize = 256;

/// Largest number of UTF-8 bytes kept from a server name.
pub const MAX_OBSERVED_SERVER_NAME_BYTES: usize = 255;

/// Largest capacity of a recording observer.
pub const MAX_OBSERVATIONS: usize = 4096;

/// TLS extension type of the server name.
pub const TLS_EXT_SERVER_NAME: u16 = 0x0000;

/// TLS extension type of the supported groups.
pub const TLS_EXT_SUPPORTED_GROUPS: u16 = 0x000a;

/// TLS extension type of ALPN.
pub const TLS_EXT_ALPN: u16 = 0x0010;

/// Transport marker used by the JA4 first fingerprint chunk.
#[derive(Debug, Clone, Copy, PartialEq, Eq, Structural)]
pub enum Ja4Transport {
    /// TLS carried by a stream transport such as TCP.
    Tcp,
    /// TLS carried by QUIC.
    Quic,
    /// Datagram TLS.
    Dtls,
}

/// The JA4 marker of a transport.
pub open spec fn transport_marker(t: Ja4Transport) -> char {
    match t {
        Ja4Transport::Tcp => 't',
        Ja4Transport::Quic => 'q',
        Ja4Transport::Dtls => 'd',
    }
}

impl Ja4Transport {
    /// The JA4 marker character.
    pub fn marker(self) -> (c: char)
        ensures
            c == transport_marker(self),
    {
        match self {
            Ja4Transport::Tcp => 't',
            Ja4Transport::Quic => 'q',
            Ja4Transport::Dtls => 'd',
        }
    }
}

/// TLS version marker used by the JA4 first fingerprint chunk.
#[derive(Debug, Clone, Copy, PartialEq, Eq, Structural)]
pub enum Ja4TlsVersion {
    /// SSL 2.0.
    Ssl2,
    /// SSL 3.0.
    Ssl3,
    /// TLS 1.0.
    Tls1_0,
    /// TLS 1.1.
    Tls1_1,
    /// TLS 1.2.
    Tls1_2,
    /// TLS 1.3.
    Tls1_3,
    /// An unrecognized version.
    Unknown,
}

/// The version a wire value stands for.
pub open spec fn version_from_wire(value: u16) -> Ja4TlsVersion {
    if value == 0x0002 {
        Ja4TlsVersion::Ssl2
    } else if value == 0x0300 {
        Ja4TlsVersion::Ssl3
    } else if value == 0x0301 {
        Ja4TlsVersion::Tls1_0
    } else if value == 0x0302 {
        Ja4TlsVersion::Tls1_1
    } else if value == 0x0303 {
        Ja4TlsVersion::Tls1_2
    } else if value == 0x0304 {
        Ja4TlsVersion::Tls1_3
    } else {
        Ja4TlsVersion::Unknown
    }
}

/// The two JA4 marker characters of a version.
pub open spec fn version_marker(v: Ja4TlsVersion) -> (char, char) {
    match v {
        Ja4TlsVersion::Ssl2 => ('s', '2'),
        Ja4TlsVersion::Ssl3 => ('s', '3'),
        Ja4TlsVersion::Tls1_0 => ('1', '0'),
        Ja4TlsVersion::Tls1_1 => ('1', '1'),
        Ja4TlsVersion::Tls1_2 => ('1', '2'),
        Ja4TlsVersion::Tls1_3 => ('1', '3'),
        Ja4TlsVersion::Unknown => ('0', '0'),
    }
}

impl Ja4TlsVersion {
    /// Converts a wire version into the JA4 version marker.
    pub fn from_wire(value: u16) -> (v: Self)
        ensures
            v == version_from_wire(value),
    {
        if value == 0x0002 {
            Ja4TlsVersion::Ssl2
        } else if value == 0x0300 {
            Ja4TlsVersion::Ssl3
        } else if value == 0x0301 {
            Ja4TlsVersion::Tls1_0
        } else if value == 0x0302 {
            Ja4TlsVersion::Tls1_1
        } else if value == 0x0303 {
            Ja4TlsVersion::Tls1_2
        } else if value == 0x0304 {
            Ja4TlsVersion::Tls1_3
        } else {
            Ja4TlsVersion::Unknown
        }
    }

    /// The two marker characters.
    pub fn marker(self) -> (m: (char, char))
        ensures
            m == version_marker(self),
    {
        match self {
            Ja4TlsVersion::Ssl2 => ('s', '2'),
            Ja4TlsVersion::Ssl3 => ('s', '3'),
            Ja4TlsVersion::Tls1_0 => ('1', '0'),
            Ja4TlsVersion::Tls1_1 => ('1', '1'),
            Ja4TlsVersion::Tls1_2 => ('1', '2'),
            Ja4TlsVersion::Tls1_3 => ('1', '3'),
            Ja4TlsVersion::Unknown => ('0', '0'),
        }
    }

    /// The marker as text: `s2`, `s3`, `10` to `13`, or `00`.
    pub fn to_text(self) -> (s: String)
        ensures
            s@ == seq![version_marker(self).0, version_marker(self).1],
    {
        let (a, b) = self.marker();
        let mut s = String::new();
        push_char(&mut s, a);
        push_char(&mut s, b);
        assert(s@ =~= seq![a, b]);
        s
    }
}

// ---------------------------------------------------------------------------
// Value lists.
// ---------------------------------------------------------------------------

/// GREASE values reserved by RFC 8701: both bytes of the form `0x?a`.
pub open spec fn is_grease(value: u16) -> bool {
    value & 0x0f0f == 0x0a0a
}

/// The values that are not GREASE, in their order.
pub open spec fn drop_grease(s: Seq<u16>) -> Seq<u16>
    decreases s.len(),
{
    if s.len() == 0 {
        s
    } else if is_grease(s.last()) {
        drop_grease(s.drop_last())
    } else {
        drop_grease(s.drop_last()).push(s.last())
    }
}

/// The values other than the server-name and ALPN extension types.
pub open spec fn drop_sni_alpn(s: Seq<u16>) -> Seq<u16>
    decreases s.len(),
{
    if s.len() == 0 {
        s
    } else if s.last() == TLS_EXT_SERVER_NAME || s.last() == TLS_EXT_ALPN {
        drop_sni_alpn(s.drop_last())
    } else {
        drop_sni_alpn(s.drop_last()).push(s.last())
    }
}

/// Index at which `x` is inserted into `s`: before the first larger value.
pub open spec fn insert_at(s: Seq<u16>, x: u16) -> nat
    decreases s.len(),
{
    if s.len() == 0 {
        0
    } else if s[0] > x {
        0
    } else {
        1 + insert_at(s.drop_first(), x)
    }
}

/// `x` inserted into `s` before the first larger value.
pub open spec fn insert_u16(s: Seq<u16>, x: u16) -> Seq<u16> {
    s.take(insert_at(s, x) as int).push(x) + s.skip(insert_at(s, x) as int)
}

/// The values in ascending order (insertion sort).
pub open spec fn sort_u16(s: Seq<u16>) -> Seq<u16>
    decreases s.len(),
{
    if s.len() == 0 {
        s
    } else {
        insert_u16(sort_u16(s.drop_last()), s.last())
    }
}

/// Four lowercase hexadecimal digits of a 16-bit value.
pub open spec fn hex4(v: u16) -> Seq<char> {
    seq![
        hex_char((v / 4096) as nat),
        hex_char(((v / 256) % 16) as nat),
        hex_char(((v / 16) % 16) as nat),
        hex_char((v % 16) as nat),
    ]
}

/// Values as four-digit hexadecimal, joined with commas.
pub open spec fn hex_list(s: Seq<u16>) -> Seq<char>
    decreases s.len(),
{
    if s.len() == 0 {
        Seq::empty()
    } else if s.len() == 1 {
        hex4(s[0])
    } else {
        hex_list(s.drop_last()) + seq![','] + hex4(s.last())
    }
}

proof fn lemma_hex_list_empty(s: Seq<u16>)
    ensures
        hex_list(s).len() == 0 <==> s.len() == 0,
    decreases s.len(),
{
    if s.len() > 1 {
        lemma_hex_list_empty(s.drop_last());
    }
}

proof fn lemma_insert_at_bound(s: Seq<u16>, x: u16)
    ensures
        insert_at(s, x) <= s.len(),
    decreases s.len(),
{
    if s.len() > 0 && s[0] <= x {
        lemma_insert_at_bound(s.drop_first(), x);
    }
}

proof fn lemma_sort_len(s: Seq<u16>)
    ensures
        sort_u16(s).len() == s.len(),
    decreases s.len(),
{
    if s.len() > 0 {
        lemma_sort_len(s.drop_last());
        lemma_insert_at_bound(sort_u16(s.drop_last()), s.last());
    }
}

/// `s` is in ascending order.
pub open spec fn ascending(s: Seq<u16>) -> bool {
    forall|i: int, j: int| 0 <= i <= j < s.len() ==> s[i] <= s[j]
}

proof fn lemma_insert_at_props(s: Seq<u16>, x: u16)
    ensures
        insert_at(s, x) <= s.len(),
        forall|i: int| 0 <= i < insert_at(s, x) ==> s[i] <= x,
        insert_at(s, x) < s.len() ==> s[insert_at(s, x) as int] > x,
    decreases s.len(),
{
    if s.len() > 0 && s[0] <= x {
        let r = s.drop_first();
        lemma_insert_at_props(r, x);
        assert forall|i: int| 0 <= i < insert_at(s, x) implies s[i] <= x by {
            if i > 0 {
                assert(s[i] == r[i - 1]);
            }
        }
        if insert_at(s, x) < s.len() {
            assert(s[insert_at(s, x) as int] == r[insert_at(r, x) as int]);
        }
    }
}

proof fn lemma_sort_props(s: Seq<u16>)
    ensures
        ascending(sort_u16(s)),
        sort_u16(s).to_multiset() == s.to_multiset(),
    decreases s.len(),
{
    broadcast use vstd::seq_lib::group_to_multiset_ensures;

    if s.len() == 0 {
    } else {
        let d = s.drop_last();
        let x = s.last();
        lemma_sort_props(d);
        let t = sort_u16(d);
        lemma_insert_at_props(t, x);
        let k = insert_at(t, x) as int;
        let u = sort_u16(s);
        assert(u =~= t.insert(k, x));
        assert(u.to_multiset() == t.to_multiset().insert(x));
        assert(s =~= d.push(x));
        assert(s.to_multiset() == d.to_multiset().insert(x));
        assert forall|i: int, j: int| 0 <= i <= j < u.len() implies u[i] <= u[j] by {
            if i < k && j < k {
                assert(u[i] == t[i] && u[j] == t[j]);
            } else if i < k && j == k {
                assert(u[i] == t[i]);
            } else if i < k {
                assert(u[i] == t[i] && u[j] == t[j - 1]);
            } else if i == k && j > k {
                assert(u[j] == t[j - 1]);
                assert(t[k] > x);
                assert(t[k] <= t[j - 1]);
            } else if i > k {
                assert(u[i] == t[i - 1] && u[j] == t[j - 1]);
            }
        }
    }
}

proof fn lemma_ascending_unique(a: Seq<u16>, b: Seq<u16>)
    requires
        ascending(a),
        ascending(b),
        a.to_multiset() == b.to_multiset(),
    ensures
        a == b,
    decreases a.len(),
{
    broadcast use vstd::seq_lib::group_to_multiset_ensures;
    broadcast use vstd::multiset::group_multiset_axioms;

    a.to_multiset_ensures();
    b.to_multiset_ensures();
    assert(a.len() == b.len());
    if a.len() == 0 {
        assert(a =~= b);
    } else {
        assert(a.to_multiset().count(a[0]) > 0);
        assert(b.contains(a[0]));
        assert(b.to_multiset().count(b[0]) > 0);
        assert(a.contains(b[0]));
        let i = choose|i: int| 0 <= i < b.len() && b[i] == a[0];
        let j = choose|j: int| 0 <= j < a.len() && a[j] == b[0];
        assert(b[0] <= b[i]);
        assert(a[0] <= a[j]);
        assert(a[0] == b[0]);
        assert(a.remove(0) =~= a.drop_first());
        assert(b.remove(0) =~= b.drop_first());
        assert(a.drop_first().to_multiset() == a.to_multiset().remove(a[0]));
        assert(b.drop_first().to_multiset() == b.to_multiset().remove(b[0]));
        assert(ascending(a.drop_first())) by {
            assert forall|p: int, q: int| 0 <= p <= q < a.drop_first().len() implies a.drop_first()[p] <= a.drop_first()[q] by {
                assert(a[p + 1] <= a[q + 1]);
            }
        }
        assert(ascending(b.drop_first())) by {
            assert forall|p: int, q: int| 0 <= p <= q < b.drop_first().len() implies b.drop_first()[p] <= b.drop_first()[q] by {
                assert(b[p + 1] <= b[q + 1]);
            }
        }
        lemma_ascending_unique(a.drop_first(), b.drop_first());
        assert forall|k: int| 0 <= k < a.len() implies a[k] == b[k] by {
            if k > 0 {
                assert(a[k] == a.drop_first()[k - 1] && b[k] == b.drop_first()[k - 1]);
            }
        }
        assert(a =~= b);
    }
}

/// Sorting depends only on the values and how often each occurs.
proof fn lemma_sort_permutation(a: Seq<u16>, b: Seq<u16>)
    requires
        a.to_multiset() == b.to_multiset(),
    ensures
        sort_u16(a) == sort_u16(b),
{
    lemma_sort_props(a);
    lemma_sort_props(b);
    lemma_ascending_unique(sort_u16(a), sort_u16(b));
}

proof fn lemma_drop_sni_alpn_count(s: Seq<u16>, x: u16)
    ensures
        drop_sni_alpn(s).to_multiset().count(x) == if x == TLS_EXT_SERVER_NAME || x == TLS_EXT_ALPN {
            0
        } else {
            s.to_multiset().count(x)
        },
    decreases s.len(),
{
    broadcast use vstd::seq_lib::group_to_multiset_ensures;
    broadcast use vstd::multiset::group_multiset_axioms;

    if s.len() == 0 {
        assert(s.to_multiset() =~= vstd::multiset::Multiset::<u16>::empty());
    } else {
        let d = s.drop_last();
        lemma_drop_sni_alpn_count(d, x);
        assert(s =~= d.push(s.last()));
        assert(s.to_multiset() == d.to_multiset().insert(s.last()));
    }
}

proof fn lemma_drop_sni_alpn_permutation(a: Seq<u16>, b: Seq<u16>)
    requires
        a.to_multiset() == b.to_multiset(),
    ensures
        drop_sni_alpn(a).to_multiset() == drop_sni_alpn(b).to_multiset(),
{
    assert forall|x: u16| drop_sni_alpn(a).to_multiset().count(x) == drop_sni_alpn(b).to_multiset().count(x) by {
        lemma_drop_sni_alpn_count(a, x);
        lemma_drop_sni_alpn_count(b, x);
    }
    assert(drop_sni_alpn(a).to_multiset() =~= drop_sni_alpn(b).to_multiset());
}

/// The hashed JA4 fingerprint ignores GREASE values and the order of the
/// cipher suites and extension types: two ClientHellos that agree on
/// transport, version, SNI presence and first ALPN value, whose non-GREASE
/// cipher suites and extension types are the same values in any order, and
/// whose non-GREASE signature schemes are the same in the same order, have
/// the same fingerprint.
pub proof fn lemma_fingerprint_ignores_grease_and_order(h1: Ja4HelloView, h2: Ja4HelloView)
    requires
        h1.transport == h2.transport,
        h1.tls_version == h2.tls_version,
        h1.server_name_present == h2.server_name_present,
        h1.first_alpn == h2.first_alpn,
        drop_grease(h1.cipher_suites).to_multiset() == drop_grease(h2.cipher_suites).to_multiset(),
        drop_grease(h1.extension_types).to_multiset() == drop_grease(h2.extension_types).to_multiset(),
        drop_grease(h1.signature_schemes) == drop_grease(h2.signature_schemes),
    ensures
        ja4_fingerprint(h1) == ja4_fingerprint(h2),
{
    broadcast use vstd::seq_lib::group_to_multiset_ensures;

    drop_grease(h1.cipher_suites).to_multiset_ensures();
    drop_grease(h2.cipher_suites).to_multiset_ensures();
    drop_grease(h1.extension_types).to_multiset_ensures();
    drop_grease(h2.extension_types).to_multiset_ensures();
    lemma_sort_permutation(drop_grease(h1.cipher_suites), drop_grease(h2.cipher_suites));
    lemma_drop_sni_alpn_permutation(drop_grease(h1.extension_types), drop_grease(h2.extension_types));
    lemma_sort_permutation(drop_sni_alpn(drop_grease(h1.extension_types)), drop_sni_alpn(drop_grease(h2.extension_types)));
    assert(first_chunk_spec(h1) == first_chunk_spec(h2));
    assert(cipher_text_spec(h1) == cipher_text_spec(h2));
    assert(extension_text_spec(h1) == extension_text_spec(h2));
    assert(signature_text_spec(h1) == signature_text_spec(h2));
    assert(extension_signature_text(h1) == extension_signature_text(h2));
}

fn is_grease_value(value: u16) -> (b: bool)
    ensures
        b == is_grease(value),
{
    value & 0x0f0f == 0x0a0a
}

/// Drops GREASE values, keeping the others in order.
pub fn filtered_values(values: &[u16]) -> (out: Vec<u16>)
    ensures
        out@ == drop_grease(values@),
{
    let mut out: Vec<u16> = Vec::new();
    let mut i: usize = 0;
    while i < values.len()
        invariant
            i <= values@.len(),
            out@ == drop_grease(values@.take(i as int)),
        decreases values@.len() - i,
    {
        proof {
            assert(values@.take(i + 1).drop_last() =~= values@.take(i as int));
        }
        if !is_grease_value(values[i]) {
            out.push(values[i]);
        }
        i = i + 1;
    }
    assert(values@.take(values@.len() as int) =~= values@);
    out
}

fn without_sni_alpn(values: &Vec<u16>) -> (out: Vec<u16>)
    ensures
        out@ == drop_sni_alpn(values@),
{
    let mut out: Vec<u16> = Vec::new();
    let mut i: usize = 0;
    while i < values.len()
        invariant
            i <= values@.len(),
            out@ == drop_sni_alpn(values@.take(i as int)),
        decreases values@.len() - i,
    {
        proof {
            assert(values@.take(i + 1).drop_last() =~= values@.take(i as int));
        }
        if values[i] != TLS_EXT_SERVER_NAME && values[i] != TLS_EXT_ALPN {
            out.push(values[i]);
        }
        i = i + 1;
    }
    assert(values@.take(values@.len() as int) =~= values@);
    out
}

fn insert_sorted_u16(sorted: &mut Vec<u16>, x: u16)
    ensures
        final(sorted)@ == insert_u16(old(sorted)@, x),
{
    let ghost s = sorted@;
    assert(s.skip(0) =~= s);
    let mut p: usize = 0;
    while p < sorted.len() && sorted[p] <= x
        invariant
            sorted@ == s,
            p <= s.len(),
            insert_at(s, x) == p + insert_at(s.skip(p as int), x),
        decreases s.len() - p,
    {
        proof {
            assert(s.skip(p as int).drop_first() =~= s.skip(p + 1));
        }
        p = p + 1;
    }
    proof {
        if p < s.len() {
            assert(s.skip(p as int)[0] == s[p as int]);
        }
        assert(insert_at(s, x) == p);
    }
    sorted.insert(p, x);
    assert(sorted@ =~= insert_u16(s, x));
}

fn sorted_copy(values: &Vec<u16>) -> (out: Vec<u16>)
    ensures
        out@ == sort_u16(values@),
{
    let mut out: Vec<u16> = Vec::new();
    let mut i: usize = 0;
    while i < values.len()
        invariant
            i <= values@.len(),
            out@ == sort_u16(values@.take(i as int)),
        decreases values@.len() - i,
    {
        proof {
            assert(values@.take(i + 1).drop_last() =~= values@.take(i as int));
        }
        insert_sorted_u16(&mut out, values[i]);
        i = i + 1;
    }
    assert(values@.take(values@.len() as int) =~= values@);
    out
}

fn push_hex4(s: &mut String, v: u16)
    ensures
        final(s)@ == old(s)@ + hex4(v),
{
    push_char(s, hex_digit((v / 4096) as u8));
    push_char(s, hex_digit(((v / 256) % 16) as u8));
    push_char(s, hex_digit(((v / 16) % 16) as u8));
    push_char(s, hex_digit((v % 16) as u8));
    assert(final(s)@ =~= old(s)@ + hex4(v));
}

/// Values rendered as four-digit hexadecimal and joined with commas, in
/// the given order or sorted ascending.
pub fn list_text(values: &[u16], original_order: bool) -> (s: String)
    ensures
        original_order ==> s@ == hex_list(values@),
        !original_order ==> s@ == hex_list(sort_u16(values@)),
{
    let mut v: Vec<u16> = Vec::new();
    crate::ja4::copy_u16(values, &mut v);
    let ordered = if original_order { v } else { sorted_copy(&v) };
    let mut s = String::new();
    let mut i: usize = 0;
    while i < ordered.len()
        invariant
            i <= ordered@.len(),
            s@ == hex_list(ordered@.take(i as int)),
        decreases ordered@.len() - i,
    {
        proof {
            assert(ordered@.take(i + 1).drop_last() =~= ordered@.take(i as int));
        }
        if i > 0 {
            push_char(&mut s, ',');
        }
        push_hex4(&mut s, ordered[i]);
        proof {
            if i == 0 {
                assert(s@ =~= hex_list(ordered@.take(1)));
            }
        }
        i = i + 1;
    }
    assert(ordered@.take(ordered@.len() as int) =~= ordered@);
    s
}

fn copy_u16(values: &[u16], out: &mut Vec<u16>)
    requires
        old(out)@.len() == 0,
    ensures
        final(out)@ == values@,
{
    let mut i: usize = 0;
    while i < values.len()
        invariant
            i <= values@.len(),
            out@ == values@.take(i as int),
        decreases values@.len() - i,
    {
        out.push(values[i]);
        i = i + 1;
        assert(out@ =~= values@.take(i as int));
    }
    assert(values@.take(values@.len() as int) =~= values@);
}

// ---------------------------------------------------------------------------
// Fingerprints.
// ---------------------------------------------------------------------------

/// ASCII letters and digits.
pub open spec fn ascii_alnum(b: u8) -> bool {
    (48 <= b <= 57) || (65 <= b <= 90) || (97 <= b <= 122)
}

/// The two ALPN marker characters: first and last byte of the first ALPN
/// value when both are ASCII alphanumeric, else the first byte's high nibble
/// and the last byte's low nibble in hexadecimal; `00` without a value.
pub open spec fn alpn_marker_spec(a: Option<Seq<u8>>) -> (char, char) {
    if a is Some && a->0.len() > 0 {
        let f = a->0[0];
        let l = a->0.last();
        if ascii_alnum(f) && ascii_alnum(l) {
            (f as char, l as char)
        } else {
            (hex_char((f / 16) as nat), hex_char((l % 16) as nat))
        }
    } else {
        ('0', '0')
    }
}

/// The view of an optional byte vector.
pub open spec fn opt_bytes(a: Option<Vec<u8>>) -> Option<Seq<u8>> {
    match a {
        Some(v) => Some(v@),
        None => None,
    }
}

/// Complete ClientHello metadata required to compute an exact JA4 value.
#[derive(Debug, Clone, PartialEq, Eq)]
pub struct Ja4ClientHello {
    /// The underlying TLS transport.
    pub transport: Ja4Transport,
    /// The highest applicable TLS version from the ClientHello.
    pub tls_version: Ja4TlsVersion,
    /// Whether the SNI extension was present.
    pub server_name_present: bool,
    /// Cipher suites in ClientHello order.
    pub cipher_suites: Vec<u16>,
    /// Extension types in ClientHello order.
    pub extension_types: Vec<u16>,
    /// The first ALPN protocol value, if ALPN was present.
    pub first_alpn: Option<Vec<u8>>,
    /// Signature schemes in ClientHello order.
    pub signature_schemes: Vec<u16>,
}

/// The values a fingerprint is computed from.
pub struct Ja4HelloView {
    pub transport: Ja4Transport,
    pub tls_version: Ja4TlsVersion,
    pub server_name_present: bool,
    pub cipher_suites: Seq<u16>,
    pub extension_types: Seq<u16>,
    pub first_alpn: Option<Seq<u8>>,
    pub signature_schemes: Seq<u16>,
}

impl View for Ja4ClientHello {
    type V = Ja4HelloView;

    open spec fn view(&self) -> Ja4HelloView {
        Ja4HelloView {
            transport: self.transport,
            tls_version: self.tls_version,
            server_name_present: self.server_name_present,
            cipher_suites: self.cipher_suites@,
            extension_types: self.extension_types@,
            first_alpn: opt_bytes(self.first_alpn),
            signature_schemes: self.signature_schemes@,
        }
    }
}

/// A count capped at 99, as two decimal digits.
pub open spec fn two_digits(n: nat) -> Seq<char> {
    let c = if n > 99 { 99 } else { n };
    seq![digit_char(c / 10), digit_char(c % 10)]
}

/// The first fingerprint chunk: transport, version, SNI marker, cipher and
/// extension counts (GREASE excluded) and the ALPN marker.
pub open spec fn first_chunk_spec(h: Ja4HelloView) -> Seq<char> {
    let v = version_marker(h.tls_version);
    let a = alpn_marker_spec(h.first_alpn);
    seq![transport_marker(h.transport), v.0, v.1, if h.server_name_present { 'd' } else { 'i' }]
        + two_digits(drop_grease(h.cipher_suites).len()) + two_digits(
        drop_grease(h.extension_types).len(),
    ) + seq![a.0, a.1]
}

/// Sorted cipher list text.
pub open spec fn cipher_text_spec(h: Ja4HelloView) -> Seq<char> {
    hex_list(sort_u16(drop_grease(h.cipher_suites)))
}

/// Sorted extension list text, without server name and ALPN.
pub open spec fn extension_text_spec(h: Ja4HelloView) -> Seq<char> {
    hex_list(sort_u16(drop_sni_alpn(drop_grease(h.extension_types))))
}

/// Signature schemes text, in ClientHello order.
pub open spec fn signature_text_spec(h: Ja4HelloView) -> Seq<char> {
    hex_list(drop_grease(h.signature_schemes))
}

/// The text hashed for the extension part of the fingerprint.
pub open spec fn extension_signature_text(h: Ja4HelloView) -> Seq<char> {
    if extension_text_spec(h).len() == 0 {
        Seq::empty()
    } else if signature_text_spec(h).len() == 0 {
        extension_text_spec(h)
    } else {
        extension_text_spec(h) + seq!['_'] + signature_text_spec(h)
    }
}

/// Twelve zero digits.
pub open spec fn zero_hash() -> Seq<char> {
    Seq::new(12, |i: int| '0')
}

/// The 12-digit hash of a list text given the text's digest: zeros for an
/// empty text, else the first six digest bytes in hexadecimal.
pub open spec fn hash12_of(text: Seq<char>, digest: Seq<u8>) -> Seq<char> {
    if text.len() == 0 {
        zero_hash()
    } else {
        hex_bytes(digest.take(6))
    }
}

/// The hashed fingerprint, given the digests of the cipher text and of the
/// extension and signature text.
pub open spec fn fingerprint_with(h: Ja4HelloView, cipher_digest: Seq<u8>, extension_digest: Seq<u8>) -> Seq<
    char,
> {
    first_chunk_spec(h) + seq!['_'] + hash12_of(cipher_text_spec(h), cipher_digest) + seq!['_']
        + hash12_of(extension_text_spec(h), extension_digest)
}

/// The shape of a hashed fingerprint: ten characters, `_`, twelve lowercase
/// hexadecimal digits, `_`, twelve lowercase hexadecimal digits.
pub open spec fn fingerprint_shape(f: Seq<char>) -> bool {
    &&& f.len() == 36
    &&& f[10] == '_'
    &&& f[23] == '_'
    &&& forall|i: int| 11 <= i < 23 ==> crate::identity::hex::lower_hex_char(#[trigger] f[i])
    &&& forall|i: int| 24 <= i < 36 ==> crate::identity::hex::lower_hex_char(#[trigger] f[i])
}

proof fn lemma_hash12_shape(text: Seq<char>, digest: Seq<u8>)
    requires
        digest.len() >= 6,
    ensures
        hash12_of(text, digest).len() == 12,
        forall|i: int| 0 <= i < 12 ==> crate::identity::hex::lower_hex_char(#[trigger] hash12_of(text, digest)[i]),
{
    if text.len() > 0 {
        crate::identity::hex::lemma_hex_bytes_shape(digest.take(6));
    }
}

/// Given digests of at least six bytes, the hashed fingerprint has the
/// shape [`fingerprint_shape`] describes.
pub proof fn lemma_fingerprint_shape(h: Ja4HelloView, cipher_digest: Seq<u8>, extension_digest: Seq<u8>)
    requires
        cipher_digest.len() >= 6,
        extension_digest.len() >= 6,
    ensures
        fingerprint_shape(fingerprint_with(h, cipher_digest, extension_digest)),
{
    lemma_hash12_shape(cipher_text_spec(h), cipher_digest);
    lemma_hash12_shape(extension_text_spec(h), extension_digest);
    let c = first_chunk_spec(h);
    let a = hash12_of(cipher_text_spec(h), cipher_digest);
    let b = hash12_of(extension_text_spec(h), extension_digest);
    assert(c.len() == 10);
    let f = fingerprint_with(h, cipher_digest, extension_digest);
    assert(f == c + seq!['_'] + a + seq!['_'] + b);
    assert forall|i: int| 11 <= i < 23 implies crate::identity::hex::lower_hex_char(#[trigger] f[i]) by {
        assert(f[i] == a[i - 11]);
    }
    assert forall|i: int| 24 <= i < 36 implies crate::identity::hex::lower_hex_char(#[trigger] f[i]) by {
        assert(f[i] == b[i - 24]);
    }
}

/// The canonical JA4 fingerprint.
pub open spec fn ja4_fingerprint(h: Ja4HelloView) -> Seq<char> {
    fingerprint_with(
        h,
        sha256_spec(vstd::utf8::encode_utf8(cipher_text_spec(h))),
        sha256_spec(vstd::utf8::encode_utf8(extension_signature_text(h))),
    )
}

/// The raw-order fingerprint with un-hashed lists.
pub open spec fn ja4_raw_fingerprint(h: Ja4HelloView) -> Seq<char> {
    let exts = hex_list(drop_grease(h.extension_types));
    let sigs = signature_text_spec(h);
    first_chunk_spec(h) + seq!['_'] + hex_list(drop_grease(h.cipher_suites)) + seq!['_'] + (if sigs.len()
        == 0 {
        exts
    } else {
        exts + seq!['_'] + sigs
    })
}

/// The two ALPN marker characters of an optional first ALPN value.
pub fn alpn_marker(first_alpn: &Option<Vec<u8>>) -> (m: (char, char))
    ensures
        m == alpn_marker_spec(opt_bytes(*first_alpn)),
{
    match first_alpn {
        Some(v) => {
            if v.len() == 0 {
                ('0', '0')
            } else {
                let first = v[0];
                let last = v[v.len() - 1];
                if is_ascii_alnum(first) && is_ascii_alnum(last) {
                    (first as char, last as char)
                } else {
                    (hex_digit(first / 16), hex_digit(last % 16))
                }
            }
        },
        None => ('0', '0'),
    }
}

fn is_ascii_alnum(b: u8) -> (r: bool)
    ensures
        r == ascii_alnum(b),
{
    (48 <= b && b <= 57) || (65 <= b && b <= 90) || (97 <= b && b <= 122)
}

fn push_two_digits(s: &mut String, n: usize)
    ensures
        final(s)@ == old(s)@ + two_digits(n as nat),
{
    let c: usize = if n > 99 { 99 } else { n };
    push_char(s, digit_for(c / 10));
    push_char(s, digit_for(c % 10));
    assert(final(s)@ =~= old(s)@ + two_digits(n as nat));
}

fn digit_for(d: usize) -> (c: char)
    requires
        d < 10,
    ensures
        c == digit_char(d as nat),
{
    hex_digit(d as u8)
}

impl Ja4ClientHello {
    fn first_chunk(&self, cipher_count: usize, extension_count: usize) -> (s: String)
        requires
            cipher_count == drop_grease(self.cipher_suites@).len(),
            extension_count == drop_grease(self.extension_types@).len(),
        ensures
            s@ == first_chunk_spec(self@),
    {
        let mut s = String::new();
        push_char(&mut s, self.transport.marker());
        let (v0, v1) = self.tls_version.marker();
        push_char(&mut s, v0);
        push_char(&mut s, v1);
        push_char(&mut s, if self.server_name_present { 'd' } else { 'i' });
        push_two_digits(&mut s, cipher_count);
        push_two_digits(&mut s, extension_count);
        let (a0, a1) = alpn_marker(&self.first_alpn);
        push_char(&mut s, a0);
        push_char(&mut s, a1);
        assert(s@ =~= first_chunk_spec(self@));
        s
    }

    /// The two texts that the canonical fingerprint hashes: the sorted
    /// cipher list, and the sorted extension list with the signatures.
    pub fn fingerprint_texts(&self) -> (t: (String, String))
        ensures
            t.0@ == cipher_text_spec(self@),
            t.1@ == extension_signature_text(self@),
    {
        let ciphers = filtered_values(self.cipher_suites.as_slice());
        let extensions = filtered_values(self.extension_types.as_slice());
        let cipher_text = list_text(ciphers.as_slice(), false);
        let extension_values = without_sni_alpn(&extensions);
        let extension_text = list_text(extension_values.as_slice(), false);
        let signature_values = filtered_values(self.signature_schemes.as_slice());
        let signature_text = list_text(signature_values.as_slice(), true);
        proof {
            lemma_hex_list_empty(sort_u16(extension_values@));
            lemma_sort_len(extension_values@);
            lemma_hex_list_empty(signature_values@);
        }
        let text = if extension_values.len() == 0 {
            String::new()
        } else if signature_values.len() == 0 {
            extension_text
        } else {
            let mut t = extension_text;
            push_char(&mut t, '_');
            t.append(signature_text.as_str());
            t
        };
        (cipher_text, text)
    }

    /// The canonical fingerprint given the SHA-256 digests of the two
    /// texts of [`Ja4ClientHello::fingerprint_texts`].
    pub fn fingerprint_from_digests(&self, cipher_digest: &[u8; 32], extension_digest: &[u8; 32]) -> (s:
        String)
        ensures
            s@ == fingerprint_with(self@, cipher_digest@, extension_digest@),
    {
        let ciphers = filtered_values(self.cipher_suites.as_slice());
        let extensions = filtered_values(self.extension_types.as_slice());
        let extension_values = without_sni_alpn(&extensions);
        let mut s = self.first_chunk(ciphers.len(), extensions.len());
        push_char(&mut s, '_');
        proof {
            lemma_hex_list_empty(sort_u16(ciphers@));
            lemma_sort_len(ciphers@);
            lemma_hex_list_empty(sort_u16(extension_values@));
            lemma_sort_len(extension_values@);
        }
        let ghost mid = s@;
        if ciphers.len() == 0 {
            append_zero_hash(&mut s);
        } else {
            append_hex_bytes(&mut s, &cipher_digest.as_slice()[0..6]);
        }
        push_char(&mut s, '_');
        if extension_values.len() == 0 {
            append_zero_hash(&mut s);
        } else {
            append_hex_bytes(&mut s, &extension_digest.as_slice()[0..6]);
        }
        assert(s@ =~= fingerprint_with(self@, cipher_digest@, extension_digest@));
        s
    }

    /// Computes the canonical, sorted JA4 fingerprint.
    pub fn fingerprint(&self) -> (s: String)
        ensures
            s@ == ja4_fingerprint(self@),
            fingerprint_shape(s@),
    {
        let (cipher_text, extension_text) = self.fingerprint_texts();
        let cipher_digest = sha256(cipher_text.as_str().as_bytes());
        let extension_digest = sha256(extension_text.as_str().as_bytes());
        proof {
            lemma_fingerprint_shape(self@, cipher_digest@, extension_digest@);
        }
        self.fingerprint_from_digests(&cipher_digest, &extension_digest)
    }

    /// Computes the raw-order JA4 representation with un-hashed lists.
    pub fn raw_fingerprint(&self) -> (s: String)
        ensures
            s@ == ja4_raw_fingerprint(self@),
    {
        let ciphers = filtered_values(self.cipher_suites.as_slice());
        let extensions = filtered_values(self.extension_types.as_slice());
        let mut s = self.first_chunk(ciphers.len(), extensions.len());
        push_char(&mut s, '_');
        let cipher_text = list_text(ciphers.as_slice(), true);
        s.append(cipher_text.as_str());
        push_char(&mut s, '_');
        let extension_text = list_text(extensions.as_slice(), true);
        s.append(extension_text.as_str());
        let signature_values = filtered_values(self.signature_schemes.as_slice());
        proof {
            lemma_hex_list_empty(signature_values@);
        }
        if signature_values.len() > 0 {
            let signature_text = list_text(signature_values.as_slice(), true);
            push_char(&mut s, '_');
            s.append(signature_text.as_str());
        }
        assert(s@ =~= ja4_raw_fingerprint(self@));
        s
    }
}

fn append_zero_hash(s: &mut String)
    ensures
        final(s)@ == old(s)@ + zero_hash(),
{
    let mut i: usize = 0;
    let ghost start = s@;
    while i < 12
        invariant
            i <= 12,
            s@ == start + Seq::new(i as nat, |k: int| '0'),
        decreases 12 - i,
    {
        push_char(s, '0');
        i = i + 1;
        assert(s@ =~= start + Seq::new(i as nat, |k: int| '0'));
    }
}

// ---------------------------------------------------------------------------
// Live observations.
// ---------------------------------------------------------------------------

/// The first `MAX_OBSERVED_LIST_VALUES` values, and whether any were cut.
pub fn bounded_values(values: &[u16]) -> (r: (Vec<u16>, bool))
    ensures
        r.1 == (values@.len() > MAX_OBSERVED_LIST_VALUES),
        r.0@ == values@.take(if r.1 { MAX_OBSERVED_LIST_VALUES as int } else { values@.len() as int }),
{
    let mut out: Vec<u16> = Vec::new();
    let mut i: usize = 0;
    while i < values.len() && i < MAX_OBSERVED_LIST_VALUES
        invariant
            i <= values@.len(),
            i <= MAX_OBSERVED_LIST_VALUES,
            out@ == values@.take(i as int),
        decreases values@.len() - i,
    {
        out.push(values[i]);
        i = i + 1;
        assert(out@ =~= values@.take(i as int));
    }
    (out, values.len() > MAX_OBSERVED_LIST_VALUES)
}

/// How many leading characters of `s` fit in `budget` UTF-8 bytes.
pub open spec fn fit_chars(s: Seq<char>, budget: int) -> nat
    decreases s.len(),
{
    if s.len() == 0 {
        0
    } else if crate::error::utf8_width(s[0]) > budget {
        0
    } else {
        1 + fit_chars(s.drop_first(), budget - crate::error::utf8_width(s[0]))
    }
}

proof fn lemma_fit_chars_step(s: Seq<char>, k: nat, budget: int)
    requires
        k < s.len(),
        fit_chars(s, budget) >= k,
        vstd::utf8::encode_utf8(s.take(k as int)).len() <= budget,
    ensures
        fit_chars(s, budget) == k + fit_chars(s.skip(k as int), budget - vstd::utf8::encode_utf8(
            s.take(k as int),
        ).len()),
    decreases k,
{
    if k > 0 {
        crate::error::lemma_encode_utf8_concat(seq![s[0]], s.drop_first().take(k - 1));
        assert(s.take(k as int) =~= seq![s[0]] + s.drop_first().take(k - 1));
        crate::error::lemma_encode_utf8_push(Seq::<char>::empty(), s[0]);
        assert(Seq::<char>::empty().push(s[0]) =~= seq![s[0]]);
        lemma_fit_chars_step(s.drop_first(), (k - 1) as nat, budget - crate::error::utf8_width(s[0]));
        assert(s.drop_first().skip(k - 1) =~= s.skip(k as int));
    } else {
        assert(s.skip(0) =~= s);
        assert(s.take(0) =~= Seq::<char>::empty());
        assert(vstd::utf8::encode_utf8(Seq::<char>::empty()) =~= Seq::<u8>::empty());
    }
}

/// The server name to record: none unless included; otherwise the longest
/// prefix of whole characters within `MAX_OBSERVED_SERVER_NAME_BYTES`
/// UTF-8 bytes, with whether that cut anything.
pub fn bounded_server_name(value: Option<&str>, include_name: bool) -> (r: (Option<String>, bool))
    ensures
        !include_name || value is None ==> r == (None::<String>, false),
        include_name && value is Some ==> r.0 is Some && r.0->0@ == value->0@.take(
            fit_chars(value->0@, MAX_OBSERVED_SERVER_NAME_BYTES as int) as int,
        ),
        include_name && value is Some ==> (r.1 <==> vstd::utf8::encode_utf8(value->0@).len()
            > MAX_OBSERVED_SERVER_NAME_BYTES),
        include_name && value is Some ==> vstd::utf8::encode_utf8(r.0->0@).len()
            <= MAX_OBSERVED_SERVER_NAME_BYTES || !r.1,
{
    if !include_name {
        return (None, false);
    }
    let v = match value {
        Some(v) => v,
        None => return (None, false),
    };
    let mut out = String::new();
    let mut total: usize = 0;
    let mut done = false;
    for c in it: v.chars()
        invariant
            it.seq() == v@,
            !done ==> out@ == v@.take(it.index() as int),
            !done ==> total == vstd::utf8::encode_utf8(v@.take(it.index() as int)).len(),
            !done ==> total <= MAX_OBSERVED_SERVER_NAME_BYTES,
            !done ==> fit_chars(v@, 255) >= it.index(),
            done ==> out@ == v@.take(fit_chars(v@, 255) as int),
            done ==> vstd::utf8::encode_utf8(v@).len() > 255,
            done ==> vstd::utf8::encode_utf8(out@).len() <= 255,
    {
        let ghost k = it.index();
        if !done {
            let w: usize = char_width(c);
            proof {
                lemma_fit_chars_step(v@, k as nat, 255);
                assert(v@.skip(k as int)[0] == c);
                crate::error::lemma_encode_utf8_push(v@.take(k as int), c);
                assert(v@.take(k as int).push(c) =~= v@.take(k + 1));
            }
            if w > MAX_OBSERVED_SERVER_NAME_BYTES - total {
                proof {
                    assert(fit_chars(v@.skip(k as int), 255 - total) == 0);
                    crate::error::lemma_encode_utf8_concat(v@.take(k + 1), v@.skip(k + 1));
                    assert(v@ =~= v@.take(k + 1) + v@.skip(k + 1));
                }
                done = true;
            } else {
                push_char(&mut out, c);
                total = total + w;
            }
        }
    }
    proof {
        if !done {
            assert(v@.take(v@.len() as int) =~= v@);
            lemma_fit_chars_le(v@, 255);
        }
    }
    (Some(out), done)
}

proof fn lemma_fit_chars_le(s: Seq<char>, budget: int)
    ensures
        fit_chars(s, budget) <= s.len(),
    decreases s.len(),
{
    if s.len() > 0 {
        lemma_fit_chars_le(s.drop_first(), budget - crate::error::utf8_width(s[0]));
    }
}

fn char_width(c: char) -> (w: usize)
    ensures
        w == crate::error::utf8_width(c),
{
    let u = c as u32;
    if u <= 0x7f { 1 } else if u <= 0x7ff { 2 } else if u <= 0xffff { 3 } else { 4 }
}

/// ALPN values rendered for the metadata digest: each value's length in
/// hexadecimal followed by its bytes in hexadecimal, joined with commas.
pub open spec fn alpn_digest_text(values: Seq<Seq<u8>>) -> Seq<char>
    decreases values.len(),
{
    if values.len() == 0 {
        Seq::empty()
    } else if values.len() == 1 {
        hex_number(values[0].len()) + hex_bytes(values[0])
    } else {
        alpn_digest_text(values.drop_last()) + seq![','] + hex_number(values.last().len()) + hex_bytes(
            values.last(),
        )
    }
}

/// The views of a list of byte vectors.
pub open spec fn views(values: Seq<Vec<u8>>) -> Seq<Seq<u8>> {
    values.map_values(|v: Vec<u8>| v@)
}

/// The text whose SHA-256 digest identifies captured metadata.
pub open spec fn metadata_text(
    h: Ja4HelloView,
    server_name: Seq<char>,
    alpn: Seq<Seq<u8>>,
    named_groups: Seq<u16>,
) -> Seq<char> {
    let v = version_marker(h.tls_version);
    "transport="@ + seq![transport_marker(h.transport)] + ";version="@ + seq![v.0, v.1] + ";sni="@
        + (if h.server_name_present { "1"@ } else { "0"@ }) + ";name="@ + server_name + ";alpn="@
        + alpn_digest_text(alpn) + ";ciphers="@ + hex_list(drop_grease(h.cipher_suites)) + ";sigs="@
        + hex_list(drop_grease(h.signature_schemes)) + ";groups="@ + hex_list(drop_grease(named_groups))
        + ";exts="@ + hex_list(drop_grease(h.extension_types))
}

fn append_alpn_text(s: &mut String, alpn: &Vec<Vec<u8>>)
    ensures
        final(s)@ == old(s)@ + alpn_digest_text(views(alpn@)),
{
    let ghost before_alpn = s@;
    let mut i: usize = 0;
    while i < alpn.len()
        invariant
            i <= alpn@.len(),
            s@ == before_alpn + alpn_digest_text(views(alpn@.take(i as int))),
        decreases alpn@.len() - i,
    {
        proof {
            assert(views(alpn@.take(i + 1)).drop_last() =~= views(alpn@.take(i as int)));
            assert(views(alpn@.take(i + 1)).last() == alpn@[i as int]@);
        }
        if i > 0 {
            push_char(s, ',');
        }
        append_hex_number(s, alpn[i].len() as u64);
        append_hex_bytes(s, alpn[i].as_slice());
        proof {
            if i == 0 {
                assert(views(alpn@.take(1)).len() == 1);
            }
        }
        i = i + 1;
        assert(s@ =~= before_alpn + alpn_digest_text(views(alpn@.take(i as int))));
    }
    assert(alpn@.take(alpn@.len() as int) =~= alpn@);
}

/// Builds the metadata text.
pub fn metadata_input(
    metadata: &Ja4ClientHello,
    server_name: Option<&str>,
    alpn: &Vec<Vec<u8>>,
    named_groups: &[u16],
) -> (s: String)
    ensures
        s@ == metadata_text(
            metadata@,
            match server_name {
                Some(n) => n@,
                None => Seq::empty(),
            },
            views(alpn@),
            named_groups@,
        ),
{
    let mut s = String::from_str("transport=");
    push_char(&mut s, metadata.transport.marker());
    s.append(";version=");
    let (v0, v1) = metadata.tls_version.marker();
    push_char(&mut s, v0);
    push_char(&mut s, v1);
    s.append(";sni=");
    s.append(if metadata.server_name_present { "1" } else { "0" });
    s.append(";name=");
    let ghost name_view: Seq<char> = match server_name {
        Some(n) => n@,
        None => Seq::empty(),
    };
    match server_name {
        Some(n) => s.append(n),
        None => {
            proof {
                reveal_strlit("");
            }
            s.append("");
        },
    }
    s.append(";alpn=");
    append_alpn_text(&mut s, alpn);
    s.append(";ciphers=");
    let t = list_text(filtered_values(metadata.cipher_suites.as_slice()).as_slice(), true);
    s.append(t.as_str());
    s.append(";sigs=");
    let t = list_text(filtered_values(metadata.signature_schemes.as_slice()).as_slice(), true);
    s.append(t.as_str());
    s.append(";groups=");
    let t = list_text(filtered_values(named_groups).as_slice(), true);
    s.append(t.as_str());
    s.append(";exts=");
    let t = list_text(filtered_values(metadata.extension_types.as_slice()).as_slice(), true);
    s.append(t.as_str());
    assert(s@ =~= metadata_text(metadata@, name_view, views(alpn@), named_groups@));
    s
}

/// The hexadecimal SHA-256 digest of the metadata text.
pub fn metadata_digest(
    metadata: &Ja4ClientHello,
    server_name: Option<&str>,
    alpn: &Vec<Vec<u8>>,
    named_groups: &[u16],
) -> (s: String)
    ensures
        s@ == hex_bytes(
            sha256_spec(
                vstd::utf8::encode_utf8(
                    metadata_text(
                        metadata@,
                        match server_name {
                            Some(n) => n@,
                            None => Seq::empty(),
                        },
                        views(alpn@),
                        named_groups@,
                    ),
                ),
            ),
        ),
{
    let input = metadata_input(metadata, server_name, alpn, named_groups);
    let digest = sha256(input.as_str().as_bytes());
    let mut s = String::new();
    append_hex_bytes(&mut s, digest.as_slice());
    assert(s@ =~= hex_bytes(digest@));
    s
}

/// How much of the standard JA4 input was available to a live observer.
#[derive(Debug, Clone, Copy, PartialEq, Eq, Structural)]
pub enum Ja4ObservationCoverage {
    /// The TLS stack exposed public ClientHello fields, but not the complete
    /// ordered extension list and supported-version extension required for
    /// exact JA4.
    PublicRustlsSubset,
}

/// The public ClientHello fields that a live TLS hook exposes.
#[derive(Debug, Clone)]
pub struct Ja4HelloFields {
    /// The SNI value, if present.
    pub server_name: Option<String>,
    /// Cipher suites in ClientHello order.
    pub cipher_suites: Vec<u16>,
    /// Signature schemes in ClientHello order.
    pub signature_schemes: Vec<u16>,
    /// Named groups, if the extension was present.
    pub named_groups: Option<Vec<u16>>,
    /// ALPN values, if the extension was present.
    pub alpn: Option<Vec<Vec<u8>>>,
}

/// A bounded passive observation emitted by the optional resolver plugin.
#[derive(Debug, Clone, PartialEq, Eq)]
pub struct Ja4Observation {
    /// The live observation is intentionally marked partial.
    pub coverage: Ja4ObservationCoverage,
    /// The transport marker for the observed handshake.
    pub transport: Ja4Transport,
    /// QUIC is TLS 1.3-only in this standards path.
    pub tls_version: Ja4TlsVersion,
    /// Whether SNI was present.
    pub sni_present: bool,
    /// SNI value when explicitly enabled by [`Ja4ObserverConfig`].
    pub server_name: Option<String>,
    /// ALPN values exposed by the TLS stack.
    pub alpn: Vec<Vec<u8>>,
    /// Cipher suites exposed by the TLS stack.
    pub cipher_suites: Vec<u16>,
    /// Signature schemes exposed by the TLS stack.
    pub signature_schemes: Vec<u16>,
    /// Named groups exposed by the TLS stack.
    pub named_groups: Vec<u16>,
    /// Extension types whose presence can be established from public fields.
    pub known_extension_types: Vec<u16>,
    /// Stable digest of the captured public metadata.
    pub metadata_sha256: String,
    /// JA4-compatible rendering of the public subset; not an exact
    /// wire-level JA4.
    pub partial_fingerprint: String,
    /// Exact JA4 is unavailable from a public TLS hook.
    pub exact_fingerprint: Option<String>,
    /// Whether the certificate resolver selected a certificate.
    pub certificate_resolved: bool,
    /// Whether one or more public lists were bounded before delivery.
    pub truncated: bool,
}

/// The text of an optional string.
pub open spec fn opt_string_view(s: Option<String>) -> Option<Seq<char>> {
    match s {
        Some(x) => Some(x@),
        None => None,
    }
}

/// Two observations hold the same values in every field.
pub open spec fn same_observation(a: Ja4Observation, b: Ja4Observation) -> bool {
    &&& a.coverage == b.coverage
    &&& a.transport == b.transport
    &&& a.tls_version == b.tls_version
    &&& a.sni_present == b.sni_present
    &&& opt_string_view(a.server_name) == opt_string_view(b.server_name)
    &&& views(a.alpn@) == views(b.alpn@)
    &&& a.cipher_suites@ == b.cipher_suites@
    &&& a.signature_schemes@ == b.signature_schemes@
    &&& a.named_groups@ == b.named_groups@
    &&& a.known_extension_types@ == b.known_extension_types@
    &&& a.metadata_sha256@ == b.metadata_sha256@
    &&& a.partial_fingerprint@ == b.partial_fingerprint@
    &&& opt_string_view(a.exact_fingerprint) == opt_string_view(b.exact_fingerprint)
    &&& a.certificate_resolved == b.certificate_resolved
    &&& a.truncated == b.truncated
}

fn copy_opt_string(s: &Option<String>) -> (c: Option<String>)
    ensures
        opt_string_view(c) == opt_string_view(*s),
{
    match s {
        Some(x) => Some(String::from_str(x.as_str())),
        None => None,
    }
}

fn copy_u16_vec(v: &Vec<u16>) -> (c: Vec<u16>)
    ensures
        c@ == v@,
{
    let mut c: Vec<u16> = Vec::new();
    copy_u16(v.as_slice(), &mut c);
    c
}

fn copy_byte_lists(v: &Vec<Vec<u8>>) -> (c: Vec<Vec<u8>>)
    ensures
        views(c@) == views(v@),
{
    let mut c: Vec<Vec<u8>> = Vec::new();
    let mut i: usize = 0;
    while i < v.len()
        invariant
            i <= v@.len(),
            c@.len() == i,
            views(c@) == views(v@).take(i as int),
        decreases v@.len() - i,
    {
        let ghost before = c@;
        let item = crate::wire::copy_bytes(v[i].as_slice());
        c.push(item);
        proof {
            assert(c@ == before.push(item));
            assert forall|j: int| 0 <= j < i + 1 implies #[trigger] views(c@)[j] == views(v@).take(i + 1)[j] by {
                if j < i {
                    assert(c@[j] == before[j]);
                    assert(views(before)[j] == views(v@).take(i as int)[j]);
                } else {
                    assert(c@[j] == item);
                }
            }
        }
        i = i + 1;
        assert(views(c@) =~= views(v@).take(i as int));
    }
    assert(views(v@).take(v@.len() as int) =~= views(v@));
    c
}

/// A copy of an observation, field by field.
fn copy_observation(o: &Ja4Observation) -> (c: Ja4Observation)
    ensures
        same_observation(*o, c),
{
    Ja4Observation {
        coverage: o.coverage,
        transport: o.transport,
        tls_version: o.tls_version,
        sni_present: o.sni_present,
        server_name: copy_opt_string(&o.server_name),
        alpn: copy_byte_lists(&o.alpn),
        cipher_suites: copy_u16_vec(&o.cipher_suites),
        signature_schemes: copy_u16_vec(&o.signature_schemes),
        named_groups: copy_u16_vec(&o.named_groups),
        known_extension_types: copy_u16_vec(&o.known_extension_types),
        metadata_sha256: String::from_str(o.metadata_sha256.as_str()),
        partial_fingerprint: String::from_str(o.partial_fingerprint.as_str()),
        exact_fingerprint: copy_opt_string(&o.exact_fingerprint),
        certificate_resolved: o.certificate_resolved,
        truncated: o.truncated,
    }
}

/// Controls privacy-sensitive behavior of the live observer.
#[derive(Debug, Clone, Copy, Default, PartialEq, Eq, Structural)]
pub struct Ja4ObserverConfig {
    /// Include the SNI value in each observation. Defaults to false.
    pub include_server_name: bool,
}

/// The ALPN values kept: at most `MAX_OBSERVED_ALPN_VALUES`, each cut to
/// `MAX_OBSERVED_ALPN_BYTES`.
pub open spec fn bounded_alpn_spec(values: Seq<Seq<u8>>) -> Seq<Seq<u8>> {
    let n = if values.len() > MAX_OBSERVED_ALPN_VALUES { MAX_OBSERVED_ALPN_VALUES as int } else { values.len() as int };
    Seq::new(n as nat, |i: int| if values[i].len() > MAX_OBSERVED_ALPN_BYTES { values[i].take(MAX_OBSERVED_ALPN_BYTES as int) } else { values[i] })
}

/// Whether bounding the ALPN values cut anything.
pub open spec fn alpn_truncated_spec(values: Seq<Seq<u8>>) -> bool {
    values.len() > MAX_OBSERVED_ALPN_VALUES || exists|i: int|
        0 <= i < values.len() && i < MAX_OBSERVED_ALPN_VALUES && #[trigger] values[i].len()
            > MAX_OBSERVED_ALPN_BYTES
}

/// The ALPN values kept in an observation, and whether any were cut.
pub fn bounded_alpn(values: &Vec<Vec<u8>>) -> (r: (Vec<Vec<u8>>, bool))
    ensures
        views(r.0@) == bounded_alpn_spec(views(values@)),
        r.1 == alpn_truncated_spec(views(values@)),
{
    let mut out: Vec<Vec<u8>> = Vec::new();
    let mut truncated = values.len() > MAX_OBSERVED_ALPN_VALUES;
    let mut i: usize = 0;
    while i < values.len() && i < MAX_OBSERVED_ALPN_VALUES
        invariant
            i <= values@.len(),
            i <= MAX_OBSERVED_ALPN_VALUES,
            out@.len() == i,
            forall|j: int| 0 <= j < i ==> #[trigger] out@[j]@ == (if values@[j]@.len() > MAX_OBSERVED_ALPN_BYTES { values@[j]@.take(MAX_OBSERVED_ALPN_BYTES as int) } else { values@[j]@ }),
            truncated == (values@.len() > MAX_OBSERVED_ALPN_VALUES || exists|j: int|
                0 <= j < i && #[trigger] values@[j]@.len() > MAX_OBSERVED_ALPN_BYTES),
        decreases values@.len() - i,
    {
        let v = &values[i];
        let keep = if v.len() > MAX_OBSERVED_ALPN_BYTES { MAX_OBSERVED_ALPN_BYTES } else { v.len() };
        if v.len() > MAX_OBSERVED_ALPN_BYTES {
            truncated = true;
        }
        let part = crate::wire::copy_bytes(&v.as_slice()[0..keep]);
        proof {
            assert(part@ =~= (if v@.len() > MAX_OBSERVED_ALPN_BYTES { v@.take(MAX_OBSERVED_ALPN_BYTES as int) } else { v@ }));
        }
        out.push(part);
        i = i + 1;
    }
    proof {
        let vv = views(values@);
        assert(views(out@) =~= bounded_alpn_spec(vv));
        if truncated != alpn_truncated_spec(vv) {
            if alpn_truncated_spec(vv) && values@.len() <= MAX_OBSERVED_ALPN_VALUES {
                let j = choose|j: int| 0 <= j < vv.len() && j < MAX_OBSERVED_ALPN_VALUES && #[trigger] vv[j].len() > MAX_OBSERVED_ALPN_BYTES;
                assert(values@[j]@.len() > MAX_OBSERVED_ALPN_BYTES);
            }
            if truncated && values@.len() <= MAX_OBSERVED_ALPN_VALUES {
                let j = choose|j: int| 0 <= j < i && #[trigger] values@[j]@.len() > MAX_OBSERVED_ALPN_BYTES;
                assert(vv[j].len() > MAX_OBSERVED_ALPN_BYTES);
            }
        }
    }
    (out, truncated)
}

/// The values kept from a bounded list.
pub open spec fn bounded_list(s: Seq<u16>) -> Seq<u16> {
    if s.len() > MAX_OBSERVED_LIST_VALUES {
        s.take(MAX_OBSERVED_LIST_VALUES as int)
    } else {
        s
    }
}

/// Extension types whose presence the public fields establish.
pub open spec fn known_extension_types_spec(sni: bool, alpn: bool, groups: bool) -> Seq<u16> {
    (if sni { seq![TLS_EXT_SERVER_NAME] } else { Seq::empty() }) + (if alpn {
        seq![TLS_EXT_ALPN]
    } else {
        Seq::empty()
    }) + (if groups { seq![TLS_EXT_SUPPORTED_GROUPS] } else { Seq::empty() })
}

/// The optional view of an optional string.
pub open spec fn opt_text(s: Option<String>) -> Option<Seq<char>> {
    match s {
        Some(t) => Some(t@),
        None => None,
    }
}

fn clone_u16s(v: &Vec<u16>) -> (out: Vec<u16>)
    ensures
        out@ == v@,
{
    let mut out: Vec<u16> = Vec::new();
    copy_u16(v.as_slice(), &mut out);
    out
}

impl Ja4Observation {
    /// The observation of a live ClientHello's public fields: bounded
    /// lists, the known extension types, a partial fingerprint over them and
    /// the digest of the captured metadata.
    pub fn from_client_hello(hello: &Ja4HelloFields, config: Ja4ObserverConfig) -> (o: Self)
        ensures
            o.coverage == Ja4ObservationCoverage::PublicRustlsSubset,
            o.transport == Ja4Transport::Quic,
            o.tls_version == Ja4TlsVersion::Tls1_3,
            o.sni_present == hello.server_name is Some,
            o.cipher_suites@ == bounded_list(hello.cipher_suites@),
            o.signature_schemes@ == bounded_list(hello.signature_schemes@),
            o.named_groups@ == (match hello.named_groups {
                Some(g) => bounded_list(g@),
                None => Seq::empty(),
            }),
            views(o.alpn@) == (match hello.alpn {
                Some(a) => bounded_alpn_spec(views(a@)),
                None => Seq::empty(),
            }),
            o.known_extension_types@ == known_extension_types_spec(
                hello.server_name is Some,
                hello.alpn is Some,
                hello.named_groups is Some,
            ),
            !config.include_server_name ==> o.server_name is None,
            config.include_server_name ==> opt_text(o.server_name) == (match hello.server_name {
                Some(n) => Some(n@.take(fit_chars(n@, MAX_OBSERVED_SERVER_NAME_BYTES as int) as int)),
                None => None,
            }),
            o.partial_fingerprint@ == ja4_fingerprint(
                Ja4HelloView {
                    transport: Ja4Transport::Quic,
                    tls_version: Ja4TlsVersion::Tls1_3,
                    server_name_present: hello.server_name is Some,
                    cipher_suites: o.cipher_suites@,
                    extension_types: o.known_extension_types@,
                    first_alpn: if o.alpn@.len() > 0 { Some(o.alpn@[0]@) } else { None },
                    signature_schemes: o.signature_schemes@,
                },
            ),
            o.metadata_sha256@ == hex_bytes(
                sha256_spec(
                    vstd::utf8::encode_utf8(
                        metadata_text(
                            Ja4HelloView {
                                transport: Ja4Transport::Quic,
                                tls_version: Ja4TlsVersion::Tls1_3,
                                server_name_present: hello.server_name is Some,
                                cipher_suites: o.cipher_suites@,
                                extension_types: o.known_extension_types@,
                                first_alpn: if o.alpn@.len() > 0 { Some(o.alpn@[0]@) } else { None },
                                signature_schemes: o.signature_schemes@,
                            },
                            match o.server_name {
                                Some(n) => n@,
                                None => Seq::empty(),
                            },
                            views(o.alpn@),
                            o.named_groups@,
                        ),
                    ),
                ),
            ),
            o.exact_fingerprint is None,
            !o.certificate_resolved,
            o.truncated == (hello.cipher_suites@.len() > MAX_OBSERVED_LIST_VALUES
                || hello.signature_schemes@.len() > MAX_OBSERVED_LIST_VALUES || (match hello.named_groups {
                Some(g) => g@.len() > MAX_OBSERVED_LIST_VALUES,
                None => false,
            }) || (match hello.alpn {
                Some(a) => alpn_truncated_spec(views(a@)),
                None => false,
            }) || (config.include_server_name && match hello.server_name {
                Some(n) => vstd::utf8::encode_utf8(n@).len() > MAX_OBSERVED_SERVER_NAME_BYTES,
                None => false,
            })),
    {
        let sni_present = hello.server_name.is_some();
        let name_ref: Option<&str> = match &hello.server_name {
            Some(n) => Some(n.as_str()),
            None => None,
        };
        let (server_name, server_name_truncated) = bounded_server_name(
            name_ref,
            config.include_server_name,
        );
        let (cipher_suites, cipher_truncated) = bounded_values(hello.cipher_suites.as_slice());
        let (signature_schemes, signature_truncated) = bounded_values(hello.signature_schemes.as_slice());
        let (named_groups, groups_truncated) = match &hello.named_groups {
            Some(groups) => bounded_values(groups.as_slice()),
            None => (Vec::new(), false),
        };
        let (alpn, alpn_truncated) = match &hello.alpn {
            Some(protocols) => bounded_alpn(protocols),
            None => (Vec::new(), false),
        };
        let mut known_extension_types: Vec<u16> = Vec::new();
        if sni_present {
            known_extension_types.push(TLS_EXT_SERVER_NAME);
        }
        if hello.alpn.is_some() {
            known_extension_types.push(TLS_EXT_ALPN);
        }
        if hello.named_groups.is_some() {
            known_extension_types.push(TLS_EXT_SUPPORTED_GROUPS);
        }
        assert(known_extension_types@ =~= known_extension_types_spec(
            hello.server_name is Some,
            hello.alpn is Some,
            hello.named_groups is Some,
        ));
        let first_alpn: Option<Vec<u8>> = if alpn.len() > 0 {
            Some(crate::wire::copy_bytes(alpn[0].as_slice()))
        } else {
            None
        };
        let metadata = Ja4ClientHello {
            transport: Ja4Transport::Quic,
            tls_version: Ja4TlsVersion::Tls1_3,
            server_name_present: sni_present,
            cipher_suites: clone_u16s(&cipher_suites),
            extension_types: clone_u16s(&known_extension_types),
            first_alpn,
            signature_schemes: clone_u16s(&signature_schemes),
        };
        let partial_fingerprint = metadata.fingerprint();
        let recorded_name: Option<&str> = match &server_name {
            Some(n) => Some(n.as_str()),
            None => None,
        };
        let metadata_sha256 = metadata_digest(&metadata, recorded_name, &alpn, named_groups.as_slice());
        proof {
            assert(metadata@ == Ja4HelloView {
                transport: Ja4Transport::Quic,
                tls_version: Ja4TlsVersion::Tls1_3,
                server_name_present: hello.server_name is Some,
                cipher_suites: cipher_suites@,
                extension_types: known_extension_types@,
                first_alpn: if alpn@.len() > 0 { Some(alpn@[0]@) } else { None },
                signature_schemes: signature_schemes@,
            });
        }
        Ja4Observation {
            coverage: Ja4ObservationCoverage::PublicRustlsSubset,
            transport: Ja4Transport::Quic,
            tls_version: Ja4TlsVersion::Tls1_3,
            sni_present,
            server_name,
            alpn,
            cipher_suites,
            signature_schemes,
            named_groups,
            known_extension_types,
            metadata_sha256,
            partial_fingerprint,
            exact_fingerprint: None,
            certificate_resolved: false,
            truncated: cipher_truncated || signature_truncated || groups_truncated || alpn_truncated
                || server_name_truncated,
        }
    }
}

/// Consumer of live observations, implemented by observers that callers
/// register with the QUIC server.
pub trait Ja4Observer {
    /// Consumes one bounded passive observation.
    fn observe(&mut self, observation: Ja4Observation);
}

/// What a recorder of capacity `cap` holds after one more observation: the
/// observation appended, the oldest dropped when it was full.
pub open spec fn after_record(before: Seq<Ja4Observation>, o: Ja4Observation, cap: nat) -> Seq<Ja4Observation> {
    if before.len() == cap {
        before.drop_first().push(o)
    } else {
        before.push(o)
    }
}

/// A recorder of capacity `cap` that starts empty and records `obs` one by
/// one ends up holding the last `min(n, cap)` of them, oldest first.
pub proof fn lemma_recorder_keeps_newest(obs: Seq<Ja4Observation>, states: Seq<Seq<Ja4Observation>>, cap: nat)
    requires
        cap >= 1,
        states.len() == obs.len() + 1,
        states[0].len() == 0,
        forall|i: int| 0 <= i < obs.len() ==> #[trigger] states[i + 1] == after_record(states[i], obs[i], cap),
    ensures
        states.last() == obs.skip(if obs.len() > cap { obs.len() - cap } else { 0 }),
    decreases obs.len(),
{
    let n = obs.len();
    if n == 0 {
        assert(states.last() =~= obs.skip(0));
    } else {
        let o2 = obs.drop_last();
        let s2 = states.drop_last();
        assert forall|i: int| 0 <= i < o2.len() implies #[trigger] s2[i + 1] == after_record(s2[i], o2[i], cap) by {
            assert(states[i + 1] == after_record(states[i], obs[i], cap));
        }
        lemma_recorder_keeps_newest(o2, s2, cap);
        let k = n - 1;
        assert(states[k + 1] == after_record(states[k], obs[k], cap));
        let prev = states[k];
        assert(prev == s2.last());
        let d2: int = if o2.len() > cap { o2.len() - cap } else { 0 };
        let d: int = if n > cap { n - cap } else { 0 };
        assert(prev == o2.skip(d2));
        if prev.len() == cap {
            assert(states.last() =~= obs.skip(d));
        } else {
            assert(states.last() =~= obs.skip(d));
        }
    }
}

/// A bounded in-memory observer suitable for diagnostics and lab tests.
#[derive(Debug)]
pub struct RecordingJa4Observer {
    capacity: usize,
    observations: VecDeque<Ja4Observation>,
}

impl RecordingJa4Observer {
    /// The recorded observations, oldest first.
    pub closed spec fn recorded(&self) -> Seq<Ja4Observation> {
        self.observations@
    }

    /// The most observations kept.
    pub closed spec fn max_kept(&self) -> nat {
        self.capacity as nat
    }

    #[verifier::type_invariant]
    spec fn inv(&self) -> bool {
        1 <= self.capacity <= MAX_OBSERVATIONS && self.observations@.len() <= self.capacity
    }

    /// A recorder of the given capacity; refused unless it is between 1 and
    /// `MAX_OBSERVATIONS`.
    pub fn new(capacity: usize) -> (r: Result<Self>)
        ensures
            (capacity == 0 || capacity > MAX_OBSERVATIONS) ==> (r matches Err(ShphError::Config(m))
                && m@ == "JA4 observer capacity must be between 1 and 4096"@),
            (1 <= capacity <= MAX_OBSERVATIONS) ==> (r matches Ok(o) && o.recorded().len() == 0
                && o.max_kept() == capacity),
    {
        if capacity == 0 || capacity > MAX_OBSERVATIONS {
            return Err(ShphError::Config(msg("JA4 observer capacity must be between 1 and 4096")));
        }
        Ok(RecordingJa4Observer { capacity, observations: VecDeque::new() })
    }

    /// Copies of the observations, oldest to newest.
    pub fn snapshot(&self) -> (out: Vec<Ja4Observation>)
        ensures
            out@.len() == self.recorded().len(),
            forall|i: int| 0 <= i < out@.len() ==> same_observation(self.recorded()[i], #[trigger] out@[i]),
    {
        let mut out: Vec<Ja4Observation> = Vec::new();
        let mut i: usize = 0;
        while i < self.observations.len()
            invariant
                i <= self.observations@.len(),
                out@.len() == i,
                forall|j: int| 0 <= j < i ==> same_observation(self.observations@[j], #[trigger] out@[j]),
            decreases self.observations@.len() - i,
        {
            out.push(copy_observation(&self.observations[i]));
            i = i + 1;
        }
        out
    }

    /// Records an observation, dropping the oldest one when full.
    pub fn record(&mut self, observation: Ja4Observation)
        ensures
            final(self).max_kept() == old(self).max_kept(),
            old(self).recorded().len() == old(self).max_kept() ==> final(self).recorded() == old(
                self,
            ).recorded().drop_first().push(observation),
            old(self).recorded().len() < old(self).max_kept() ==> final(self).recorded() == old(
                self,
            ).recorded().push(observation),
            final(self).recorded().len() <= final(self).max_kept(),
            final(self).recorded() == after_record(old(self).recorded(), observation, old(self).max_kept()),
    {
        proof {
            use_type_invariant(&*self);
        }
        let mut observations: VecDeque<Ja4Observation> = VecDeque::new();
        std::mem::swap(&mut observations, &mut self.observations);
        if observations.len() == self.capacity {
            observations.pop_front();
        }
        observations.push_back(observation);
        self.observations = observations;
    }
}

impl Ja4Observer for RecordingJa4Observer {
    fn observe(&mut self, observation: Ja4Observation)
        ensures
            final(self).max_kept() == old(self).max_kept(),
            old(self).recorded().len() == old(self).max_kept() ==> final(self).recorded() == old(
                self,
            ).recorded().drop_first().push(observation),
            old(self).recorded().len() < old(self).max_kept() ==> final(self).recorded() == old(
                self,
            ).recorded().push(observation),
            final(self).recorded().len() <= final(self).max_kept(),
            final(self).recorded() == after_record(old(self).recorded(), observation, old(self).max_kept()),
    {
        self.record(observation);
    }
}

} // verus!
