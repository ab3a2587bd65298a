//! Lowercase hexadecimal text of digests, as used in provider paths and
//! record file names.

use vstd::prelude::*;

use crate::text::{append_decimal, append_hex_bytes, decimal, hex_bytes, hex_char, push_char};
use super::types::{invalid, Hash32, IdentityError};
use super::verify::to_array32;

verus! {

/// A lowercase hexadecimal digit.
pub open spec fn lower_hex_char(c: char) -> bool {
    ('0' <= c && c <= '9') || ('a' <= c && c <= 'f')
}

/// The value of a lowercase hexadecimal digit.
pub open spec fn nibble(c: char) -> nat {
    if '0' <= c && c <= '9' {
        (c as nat - '0' as nat) as nat
    } else {
        (c as nat - 'a' as nat + 10) as nat
    }
}

proof fn lemma_nibble_round_trip(c: char)
    requires
        lower_hex_char(c),
    ensures
        nibble(c) < 16,
        hex_char(nibble(c)) == c,
{
}

proof fn lemma_hex_char_is_lower_hex(d: nat)
    requires
        d < 16,
    ensures
        lower_hex_char(hex_char(d)),
        nibble(hex_char(d)) == d,
{
}

/// The text of a byte string has two lowercase digits per byte, and the
/// bytes are recovered from it.
pub proof fn lemma_hex_bytes_shape(b: Seq<u8>)
    ensures
        hex_bytes(b).len() == 2 * b.len(),
        forall|i: int| 0 <= i < hex_bytes(b).len() ==> lower_hex_char(#[trigger] hex_bytes(b)[i]),
        forall|i: int| 0 <= i < b.len() ==> b[i] == nibble(#[trigger] hex_bytes(b)[2 * i]) * 16 + nibble(hex_bytes(b)[2 * i + 1]),
    decreases b.len(),
{
    if b.len() > 0 {
        let d = b.drop_last();
        lemma_hex_bytes_shape(d);
        let x = b.last();
        lemma_hex_char_is_lower_hex((x / 16) as nat);
        lemma_hex_char_is_lower_hex((x % 16) as nat);
        let h = hex_bytes(b);
        assert(h == hex_bytes(d) + seq![hex_char((x / 16) as nat), hex_char((x % 16) as nat)]);
        assert forall|i: int| 0 <= i < h.len() implies lower_hex_char(#[trigger] h[i]) by {
            if i < hex_bytes(d).len() {
                assert(h[i] == hex_bytes(d)[i]);
            }
        }
        assert forall|i: int| 0 <= i < b.len() implies b[i] == nibble(#[trigger] h[2 * i]) * 16 + nibble(h[2 * i + 1]) by {
            if i < d.len() {
                assert(h[2 * i] == hex_bytes(d)[2 * i]);
                assert(h[2 * i + 1] == hex_bytes(d)[2 * i + 1]);
                assert(b[i] == d[i]);
            } else {
                assert(h[2 * i] == hex_char((x / 16) as nat));
                assert(h[2 * i + 1] == hex_char((x % 16) as nat));
            }
        }
    }
}

/// Different byte strings have different texts.
pub proof fn lemma_hex_bytes_injective(a: Seq<u8>, b: Seq<u8>)
    requires
        hex_bytes(a) == hex_bytes(b),
    ensures
        a == b,
{
    lemma_hex_bytes_shape(a);
    lemma_hex_bytes_shape(b);
    assert forall|i: int| 0 <= i < a.len() implies a[i] == b[i] by {
        assert(a[i] == nibble(hex_bytes(a)[2 * i]) * 16 + nibble(hex_bytes(a)[2 * i + 1]));
        assert(b[i] == nibble(hex_bytes(b)[2 * i]) * 16 + nibble(hex_bytes(b)[2 * i + 1]));
    }
    assert(a =~= b);
}

proof fn lemma_lower_hex_is_ascii(s: Seq<char>)
    requires
        forall|i: int| 0 <= i < s.len() ==> lower_hex_char(#[trigger] s[i]),
    ensures
        vstd::utf8::is_ascii_chars(s),
        vstd::utf8::encode_utf8(s).len() == s.len(),
        forall|i: int| 0 <= i < s.len() ==> #[trigger] vstd::utf8::encode_utf8(s)[i] == s[i] as u8,
{
    assert(vstd::utf8::is_ascii_chars(s));
    vstd::utf8::is_ascii_chars_encode_utf8(s);
}

impl Hash32 {
    /// The digest as 64 lowercase hexadecimal digits.
    pub fn hex(&self) -> (s: String)
        ensures
            s@ == hex_bytes(self@),
    {
        let mut s = String::new();
        append_hex_bytes(&mut s, self.0.as_slice());
        s
    }

    /// Parses exactly 64 lowercase hexadecimal digits.
    pub fn parse_hex(value: &str) -> (res: Result<Self, IdentityError>)
        ensures
            res is Ok <==> (value@.len() == 64 && forall|i: int| 0 <= i < value@.len() ==> lower_hex_char(#[trigger] value@[i])),
            res matches Ok(h) ==> hex_bytes(h@) == value@,
            res matches Err(e) ==> e is InvalidRecord,
    {
        let bytes = value.as_bytes();
        let mut upper = false;
        let mut k: usize = 0;
        while k < bytes.len()
            invariant
                k <= bytes@.len(),
                upper == exists|j: int| 0 <= j < k && 65 <= #[trigger] bytes@[j] <= 90,
            decreases bytes@.len() - k,
        {
            if 65 <= bytes[k] && bytes[k] <= 90 {
                upper = true;
            }
            k = k + 1;
        }
        if bytes.len() != 64 || upper {
            proof {
                if value@.len() == 64 && forall|i: int| 0 <= i < value@.len() ==> lower_hex_char(#[trigger] value@[i]) {
                    lemma_lower_hex_is_ascii(value@);
                    if upper {
                        let j = choose|j: int| 0 <= j < bytes@.len() && 65 <= #[trigger] bytes@[j] <= 90;
                        assert(lower_hex_char(value@[j]));
                    }
                }
            }
            return Err(invalid("hash must be exactly 64 lowercase hexadecimal characters"));
        }
        let mut digits: Vec<u8> = Vec::new();
        for c in it: value.chars()
            invariant
                it.seq() == value@,
                digits@.len() == it.index(),
                forall|j: int| 0 <= j < it.index() ==> lower_hex_char(#[trigger] value@[j]) && digits@[j] == nibble(value@[j]),
        {
            let d: u8 = if '0' <= c && c <= '9' {
                (c as u32 - '0' as u32) as u8
            } else if 'a' <= c && c <= 'f' {
                (c as u32 - 'a' as u32 + 10) as u8
            } else {
                return Err(invalid("hash must be lowercase hex"));
            };
            digits.push(d);
        }
        proof {
            lemma_lower_hex_is_ascii(value@);
        }
        let mut out: Vec<u8> = Vec::new();
        let mut j: usize = 0;
        while j < 32
            invariant
                j <= 32,
                value@.len() == 64,
                digits@.len() == 64,
                forall|i: int| 0 <= i < 64 ==> lower_hex_char(#[trigger] value@[i]) && digits@[i] == nibble(value@[i]),
                out@.len() == j,
                hex_bytes(out@) == value@.take(2 * j),
            decreases 32 - j,
        {
            let hi = digits[2 * j];
            let lo = digits[2 * j + 1];
            proof {
                lemma_nibble_round_trip(value@[2 * j as int]);
                lemma_nibble_round_trip(value@[2 * j + 1]);
            }
            let x = hi * 16 + lo;
            proof {
                assert(out@.push(x).drop_last() =~= out@);
                assert(x / 16 == hi && x % 16 == lo);
                assert(hex_bytes(out@.push(x)) =~= value@.take(2 * j + 2));
            }
            out.push(x);
            j = j + 1;
        }
        assert(value@.take(64) =~= value@);
        Ok(Hash32(to_array32(out.as_slice())))
    }
}

/// Reading a digest's text gives the digest back.
pub proof fn lemma_hex_round_trip(h: Seq<u8>, text: Seq<char>)
    requires
        text == hex_bytes(h),
        h.len() == 32,
    ensures
        text.len() == 64,
        forall|i: int| 0 <= i < text.len() ==> lower_hex_char(#[trigger] text[i]),
        forall|g: Seq<u8>| hex_bytes(g) == text ==> g == h,
{
    lemma_hex_bytes_shape(h);
    assert forall|g: Seq<u8>| hex_bytes(g) == text implies g == h by {
        lemma_hex_bytes_injective(g, h);
    }
}

/// The file name under which a provider stores a record: the sequence as
/// twenty zero-padded decimal digits, a dash, the record hash in hex and
/// `.json`.
pub open spec fn record_file_name_spec(sequence: u64, hash: Seq<u8>) -> Seq<char> {
    Seq::new((20 - decimal(sequence as nat).len()) as nat, |i: int| '0') + decimal(sequence as nat) + "-"@
        + hex_bytes(hash) + ".json"@
}

/// The file name of a record with the given sequence and hash.
pub fn record_file_name(sequence: u64, hash: &Hash32) -> (s: String)
    ensures
        s@ == record_file_name_spec(sequence, hash@),
{
    let digits = crate::text::decimal_string(sequence);
    proof {
        crate::text::lemma_decimal_len_u64(sequence);
    }
    let mut s = String::new();
    let mut pad: usize = digits.as_str().unicode_len();
    while pad < 20
        invariant
            digits@ == decimal(sequence as nat),
            decimal(sequence as nat).len() <= pad <= 20,
            s@ == Seq::new((pad - decimal(sequence as nat).len()) as nat, |i: int| '0'),
        decreases 20 - pad,
    {
        push_char(&mut s, '0');
        pad = pad + 1;
        assert(s@ =~= Seq::new((pad - decimal(sequence as nat).len()) as nat, |i: int| '0'));
    }
    s.append(digits.as_str());
    s.append("-");
    append_hex_bytes(&mut s, hash.0.as_slice());
    s.append(".json");
    s
}

} // verus!
