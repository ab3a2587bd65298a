//! Error type shared by every SHPH module.

use vstd::prelude::*;

verus! {

/// Errors reported by the SHPH library.
#[derive(Debug)]
pub enum ShphError {
    Io(String),
    Config(String),
    Crypto(String),
    Protocol(String),
    Handshake(String),
    Auth(String),
    Tun(String),
    Transport(String),
    Obfuscation(String),
    Stealth(String),
    Serialization(String),
    InvalidArgument(String),
    NotConnected,
    AlreadyConnected,
    ConnectionClosed,
    Timeout,
    ResourceExhausted(String),
    PermissionDenied(String),
    Unsupported(String),
    Internal(String),
}

/// Result alias used across the library.
pub type Result<T> = core::result::Result<T, ShphError>;

/// Build an error message from a static text.
pub fn msg(text: &str) -> (s: String)
    ensures
        s@ == text@,
{
    String::from_str(text)
}

} // verus!

verus! {

/// Character-wise equality of two strings.
pub fn str_eq(a: &str, b: &str) -> (r: bool)
    ensures
        r == (a@ == b@),
{
    let x = String::from_str(a);
    let y = String::from_str(b);
    x.eq(&y)
}

/// Unicode control characters (general category Cc).
pub open spec fn control_char(c: char) -> bool {
    (c as u32) <= 0x1f || (0x7f <= (c as u32) && (c as u32) <= 0x9f)
}

/// Unicode `White_Space` characters, as `char::is_whitespace` defines them.
pub open spec fn whitespace_char(c: char) -> bool {
    let u = c as u32;
    (0x9 <= u && u <= 0xd) || u == 0x20 || u == 0x85 || u == 0xa0 || u == 0x1680
        || (0x2000 <= u && u <= 0x200a) || u == 0x2028 || u == 0x2029 || u == 0x202f
        || u == 0x205f || u == 0x3000
}

/// Whether a character is a control character.
pub fn is_control(c: char) -> (b: bool)
    ensures
        b == control_char(c),
{
    let u = c as u32;
    u <= 0x1f || (0x7f <= u && u <= 0x9f)
}

/// Whether a character is Unicode whitespace.
pub fn is_whitespace(c: char) -> (b: bool)
    ensures
        b == whitespace_char(c),
{
    let u = c as u32;
    (0x9 <= u && u <= 0xd) || u == 0x20 || u == 0x85 || u == 0xa0 || u == 0x1680
        || (0x2000 <= u && u <= 0x200a) || u == 0x2028 || u == 0x2029 || u == 0x202f
        || u == 0x205f || u == 0x3000
}

/// Whether a string holds a control character.
pub fn has_control_char(s: &str) -> (b: bool)
    ensures
        b <==> exists|i: int| 0 <= i < s@.len() && control_char(#[trigger] s@[i]),
{
    let mut found = false;
    for c in it: s.chars()
        invariant
            it.seq() == s@,
            found <==> exists|i: int| 0 <= i < it.index() && control_char(#[trigger] s@[i]),
    {
        if is_control(c) {
            found = true;
        }
    }
    found
}

/// Whether a string holds a character that is not whitespace.
pub fn has_non_whitespace(s: &str) -> (b: bool)
    ensures
        b <==> exists|i: int| 0 <= i < s@.len() && !whitespace_char(#[trigger] s@[i]),
{
    let mut found = false;
    for c in it: s.chars()
        invariant
            it.seq() == s@,
            found <==> exists|i: int| 0 <= i < it.index() && !whitespace_char(#[trigger] s@[i]),
    {
        if !is_whitespace(c) {
            found = true;
        }
    }
    found
}

} // verus!

verus! {

/// Number of UTF-8 bytes that encode a character.
pub open spec fn utf8_width(c: char) -> nat {
    let u = c as u32;
    if u <= 0x7f {
        1
    } else if u <= 0x7ff {
        2
    } else if u <= 0xffff {
        3
    } else {
        4
    }
}

pub(crate) proof fn lemma_encode_utf8_concat(a: Seq<char>, b: Seq<char>)
    ensures
        vstd::utf8::encode_utf8(a + b) == vstd::utf8::encode_utf8(a) + vstd::utf8::encode_utf8(b),
    decreases a.len(),
{
    if a.len() == 0 {
        assert(a + b =~= b);
        assert(vstd::utf8::encode_utf8(a) =~= Seq::<u8>::empty());
        assert(vstd::utf8::encode_utf8(a) + vstd::utf8::encode_utf8(b) =~= vstd::utf8::encode_utf8(b));
    } else {
        assert((a + b).drop_first() =~= a.drop_first() + b);
        assert((a + b)[0] == a[0]);
        lemma_encode_utf8_concat(a.drop_first(), b);
        assert(vstd::utf8::encode_utf8(a + b) =~= vstd::utf8::encode_utf8(a) + vstd::utf8::encode_utf8(b));
    }
}

pub(crate) proof fn lemma_encode_scalar_len(c: char)
    ensures
        vstd::utf8::encode_scalar(c as u32).len() == utf8_width(c),
{
    vstd::utf8::char_is_scalar(c);
}

pub(crate) proof fn lemma_encode_utf8_push(s: Seq<char>, c: char)
    ensures
        vstd::utf8::encode_utf8(s.push(c)).len() == vstd::utf8::encode_utf8(s).len() + utf8_width(c),
{
    lemma_encode_utf8_concat(s, seq![c]);
    assert(s.push(c) =~= s + seq![c]);
    assert(seq![c].drop_first() =~= Seq::<char>::empty());
    lemma_encode_scalar_len(c);
    assert(vstd::utf8::encode_utf8(seq![c]) =~= vstd::utf8::encode_scalar(c as u32) + vstd::utf8::encode_utf8(Seq::<char>::empty()));
}

/// Whether the UTF-8 encoding of a string is at most `max` bytes long.
pub fn utf8_len_within(s: &str, max: usize) -> (b: bool)
    ensures
        b == (vstd::utf8::encode_utf8(s@).len() <= max),
{
    let mut total: usize = 0;
    let mut within = true;
    for c in it: s.chars()
        invariant
            it.seq() == s@,
            within ==> total == vstd::utf8::encode_utf8(s@.take(it.index() as int)).len(),
            within ==> total <= max,
            !within ==> vstd::utf8::encode_utf8(s@.take(it.index() as int)).len() > max,
    {
        let ghost i = it.index();
        proof {
            lemma_encode_utf8_push(s@.take(i as int), c);
            assert(s@.take(i as int).push(c) =~= s@.take(i + 1));
        }
        if within {
            let u = c as u32;
            let w: usize = if u <= 0x7f { 1 } else if u <= 0x7ff { 2 } else if u <= 0xffff { 3 } else { 4 };
            if w > max - total {
                within = false;
            } else {
                total = total + w;
            }
        } else {
            proof {
                assert(vstd::utf8::encode_utf8(s@.take(i + 1)).len() >= vstd::utf8::encode_utf8(s@.take(i as int)).len());
            }
        }
    }
    proof {
        assert(s@.take(s@.len() as int) =~= s@);
    }
    within
}

} // verus!
