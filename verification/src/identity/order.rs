//! Why the canonical encoding of a record does not depend on the order of
//! its key, endpoint, capability and signature lists: each list is written
//! in the order of sort keys that are distinct in a valid record, and the
//! strictly sorted arrangement of a collection is unique. Conversely, the
//! length-prefixed encoding reads back, so records that differ in their
//! capabilities do not share a payload.

use vstd::prelude::*;

use crate::wire::{
    be16_bytes, be32_bytes, be64_bytes, insert_position, len_prefixed, lemma_be32_order, lemma_insert_position,
    lemma_lex_asymmetric, lemma_lex_irreflexive, lemma_lex_total, lemma_lex_transitive, lemma_sorted_order_len, lex_lt,
    sorted_order,
};
use vstd::utf8::{encode_scalar, encode_utf8, encode_utf8_decode_utf8, is_scalar, char_is_scalar};
use super::canonical::{
    canonical_list, canonical_payload_spec, capability_bytes, capability_sort_key, concat_in_order,
    endpoint_bytes, endpoint_sort_key, key_bytes, key_sort_key, opt_hash_bytes, record_hash_input, record_hash_spec,
    signature_bytes, signature_sort_key, status_bytes,
};
use super::record::{
    distinct_endpoints, distinct_key_ids, distinct_signatures, has_root_signature, key_entry_ok, record_body_ok, record_ok,
    root_count, same_endpoint, signature_entry_ok, status_ok, subject_bound,
};
use super::rules::identity_id_of;
use super::verify::{signatures_outcome, signing_key, verify_outcome};
use super::types::VerificationPolicy;
use super::rules::{distinct_strings, endpoint_ok, text_ok, token_char, token_ok};
use super::types::{
    IdentityEndpoint, IdentityKey, IdentityRecord, RecordSignature, MAX_ALGORITHM_BYTES, MAX_CAPABILITIES,
    MAX_STRING_BYTES, RECORD_DOMAIN,
};
use crate::error::control_char;

verus! {

/// `i` occurs in the index sequence `o`.
spec fn occurs(o: Seq<int>, i: int) -> bool {
    exists|j: int| 0 <= j < o.len() && o[j] == i
}

/// The insertion order is a permutation of `0..n`.
proof fn lemma_sorted_order_perm(n: nat, keys: Seq<Seq<u8>>)
    ensures
        sorted_order(n, keys).len() == n,
        forall|j: int| 0 <= j < n ==> 0 <= #[trigger] sorted_order(n, keys)[j] < n,
        forall|a: int, b: int| 0 <= a < b < n ==> #[trigger] sorted_order(n, keys)[a] != #[trigger] sorted_order(n, keys)[b],
        forall|i: int| 0 <= i < n ==> #[trigger] occurs(sorted_order(n, keys), i),
    decreases n,
{
    if n > 0 {
        let prev = sorted_order((n - 1) as nat, keys);
        lemma_sorted_order_perm((n - 1) as nat, keys);
        lemma_insert_position(prev, n - 1, keys);
        let p = insert_position(prev, n - 1, keys);
        let cur = sorted_order(n, keys);
        assert(cur == prev.insert(p, n - 1));
        assert forall|j: int| 0 <= j < n implies 0 <= #[trigger] cur[j] < n by {
            if j < p {
                assert(cur[j] == prev[j]);
            } else if j > p {
                assert(cur[j] == prev[j - 1]);
            }
        }
        assert forall|a: int, b: int| 0 <= a < b < n implies #[trigger] cur[a] != #[trigger] cur[b] by {
            let a2 = if a < p { a } else { a - 1 };
            let b2 = if b < p { b } else { b - 1 };
            if a != p && b != p {
                assert(cur[a] == prev[a2] && cur[b] == prev[b2]);
            } else if a == p {
                assert(cur[b] == prev[b2]);
            } else {
                assert(cur[a] == prev[a2]);
            }
        }
        assert forall|i: int| 0 <= i < n implies #[trigger] occurs(cur, i) by {
            if i == n - 1 {
                assert(cur[p] == i);
            } else {
                assert(occurs(prev, i));
                let j = choose|j: int| 0 <= j < prev.len() && prev[j] == i;
                if j < p {
                    assert(cur[j] == i);
                } else {
                    assert(cur[j + 1] == i);
                }
            }
        }
    }
}

/// With pairwise distinct keys, the insertion order lists the keys in
/// strictly increasing order.
proof fn lemma_sorted_order_increasing(n: nat, keys: Seq<Seq<u8>>)
    requires
        n <= keys.len(),
        forall|i: int, j: int| 0 <= i < j < n ==> #[trigger] keys[i] != #[trigger] keys[j],
    ensures
        forall|a: int, b: int| 0 <= a < b < n ==> lex_lt(
            #[trigger] keys[sorted_order(n, keys)[a]],
            #[trigger] keys[sorted_order(n, keys)[b]],
        ),
    decreases n,
{
    if n > 0 {
        let prev = sorted_order((n - 1) as nat, keys);
        lemma_sorted_order_increasing((n - 1) as nat, keys);
        lemma_sorted_order_perm((n - 1) as nat, keys);
        lemma_insert_position(prev, n - 1, keys);
        let p = insert_position(prev, n - 1, keys);
        let cur = sorted_order(n, keys);
        let kx = keys[n - 1];
        assert(cur == prev.insert(p, n - 1));
        assert forall|j: int| 0 <= j < p implies lex_lt(#[trigger] keys[prev[j]], kx) by {
            assert(!lex_lt(kx, keys[prev[j]]));
            assert(keys[prev[j]] != kx);
            lemma_lex_total(keys[prev[j]], kx);
        }
        assert forall|j: int| p <= j < n - 1 implies lex_lt(kx, #[trigger] keys[prev[j]]) by {
            if j > p {
                lemma_lex_transitive(kx, keys[prev[p]], keys[prev[j]]);
            }
        }
        assert forall|a: int, b: int| 0 <= a < b < n implies lex_lt(
            #[trigger] keys[cur[a]],
            #[trigger] keys[cur[b]],
        ) by {
            let a2 = if a < p { a } else { a - 1 };
            let b2 = if b < p { b } else { b - 1 };
            if a != p && b != p {
                assert(cur[a] == prev[a2] && cur[b] == prev[b2]);
                if a2 == b2 {
                    assert(false);
                }
            } else if a == p {
                assert(cur[b] == prev[b2]);
                assert(lex_lt(kx, keys[prev[b2]]));
            } else {
                assert(cur[a] == prev[a2]);
                assert(lex_lt(keys[prev[a2]], kx));
            }
        }
    }
}

/// Two sequences that are strictly increasing by the same sort key and
/// hold the same elements are equal.
proof fn lemma_sorted_unique<T>(u: Seq<T>, v: Seq<T>, sk: spec_fn(T) -> Seq<u8>)
    requires
        forall|a: int, b: int| 0 <= a < b < u.len() ==> lex_lt(sk(#[trigger] u[a]), sk(#[trigger] u[b])),
        forall|a: int, b: int| 0 <= a < b < v.len() ==> lex_lt(sk(#[trigger] v[a]), sk(#[trigger] v[b])),
        forall|x: T| u.contains(x) <==> v.contains(x),
    ensures
        u == v,
    decreases u.len(),
{
    if u.len() == 0 {
        if v.len() > 0 {
            assert(v.contains(v[0]));
        }
        assert(u =~= v);
    } else if v.len() == 0 {
        assert(u.contains(u[0]));
    } else {
        assert(u.contains(u[0]));
        let j = choose|j: int| 0 <= j < v.len() && v[j] == u[0];
        assert(v.contains(v[0]));
        let i = choose|i: int| 0 <= i < u.len() && u[i] == v[0];
        if j > 0 {
            assert(lex_lt(sk(v[0]), sk(v[j])));
            if i > 0 {
                assert(lex_lt(sk(u[0]), sk(u[i])));
                lemma_lex_asymmetric(sk(u[0]), sk(u[i]));
            } else {
                lemma_lex_irreflexive(sk(v[0]));
            }
        }
        assert(u[0] == v[0]);
        let u2 = u.drop_first();
        let v2 = v.drop_first();
        assert forall|x: T| u2.contains(x) implies v2.contains(x) by {
            let m = choose|m: int| 0 <= m < u2.len() && u2[m] == x;
            assert(u[m + 1] == x);
            assert(u.contains(x));
            let k = choose|k: int| 0 <= k < v.len() && v[k] == x;
            if k == 0 {
                assert(lex_lt(sk(u[0]), sk(u[m + 1])));
                lemma_lex_irreflexive(sk(x));
            }
            assert(v2[k - 1] == x);
        }
        assert forall|x: T| v2.contains(x) implies u2.contains(x) by {
            let m = choose|m: int| 0 <= m < v2.len() && v2[m] == x;
            assert(v[m + 1] == x);
            assert(v.contains(x));
            let k = choose|k: int| 0 <= k < u.len() && u[k] == x;
            if k == 0 {
                assert(lex_lt(sk(v[0]), sk(v[m + 1])));
                lemma_lex_irreflexive(sk(x));
            }
            assert(u2[k - 1] == x);
        }
        assert forall|a: int, b: int| 0 <= a < b < u2.len() implies lex_lt(sk(#[trigger] u2[a]), sk(#[trigger] u2[b])) by {
            assert(u2[a] == u[a + 1] && u2[b] == u[b + 1]);
        }
        assert forall|a: int, b: int| 0 <= a < b < v2.len() implies lex_lt(sk(#[trigger] v2[a]), sk(#[trigger] v2[b])) by {
            assert(v2[a] == v[a + 1] && v2[b] == v[b + 1]);
        }
        lemma_sorted_unique(u2, v2, sk);
        assert forall|k: int| 0 <= k < u.len() implies u[k] == v[k] by {
            if k > 0 {
                assert(u[k] == u2[k - 1] && v[k] == v2[k - 1]);
            }
        }
        assert(u =~= v);
    }
}

proof fn lemma_concat_pointwise<T>(s: Seq<T>, o1: Seq<int>, t: Seq<T>, o2: Seq<int>, f: spec_fn(T) -> Seq<u8>)
    requires
        o1.len() == o2.len(),
        forall|j: int| 0 <= j < o1.len() ==> s[#[trigger] o1[j]] == t[o2[j]],
    ensures
        concat_in_order(s, o1, f) == concat_in_order(t, o2, f),
    decreases o1.len(),
{
    if o1.len() > 0 {
        let d1 = o1.drop_last();
        let d2 = o2.drop_last();
        assert forall|j: int| 0 <= j < d1.len() implies s[#[trigger] d1[j]] == t[d2[j]] by {
            assert(d1[j] == o1[j] && d2[j] == o2[j]);
        }
        lemma_concat_pointwise(s, d1, t, d2, f);
        assert(s[o1.last()] == t[o2.last()]);
    }
}

/// A list written in canonical order does not depend on the order the list
/// was given in, when its sort keys are pairwise distinct.
pub proof fn lemma_canonical_list_reorder<T>(
    s: Seq<T>,
    t: Seq<T>,
    sk: spec_fn(T) -> Seq<u8>,
    f: spec_fn(T) -> Seq<u8>,
)
    requires
        s.to_multiset() == t.to_multiset(),
        forall|i: int, j: int| 0 <= i < j < s.len() ==> sk(#[trigger] s[i]) != sk(#[trigger] s[j]),
        forall|i: int, j: int| 0 <= i < j < t.len() ==> sk(#[trigger] t[i]) != sk(#[trigger] t[j]),
    ensures
        canonical_list(s, sk, f) == canonical_list(t, sk, f),
{
    broadcast use vstd::seq_lib::group_to_multiset_ensures;

    s.to_multiset_ensures();
    t.to_multiset_ensures();
    assert(s.len() == t.len());
    let n = s.len();
    let ks = s.map_values(sk);
    let kt = t.map_values(sk);
    assert forall|i: int, j: int| 0 <= i < j < n implies #[trigger] ks[i] != #[trigger] ks[j] by {
        assert(ks[i] == sk(s[i]) && ks[j] == sk(s[j]));
    }
    assert forall|i: int, j: int| 0 <= i < j < n implies #[trigger] kt[i] != #[trigger] kt[j] by {
        assert(kt[i] == sk(t[i]) && kt[j] == sk(t[j]));
    }
    lemma_sorted_order_perm(n, ks);
    lemma_sorted_order_perm(n, kt);
    lemma_sorted_order_increasing(n, ks);
    lemma_sorted_order_increasing(n, kt);
    let os = sorted_order(n, ks);
    let ot = sorted_order(n, kt);
    let u = os.map_values(|i: int| s[i]);
    let v = ot.map_values(|i: int| t[i]);
    assert forall|a: int, b: int| 0 <= a < b < u.len() implies lex_lt(sk(#[trigger] u[a]), sk(#[trigger] u[b])) by {
        assert(ks[os[a]] == sk(s[os[a]]) && ks[os[b]] == sk(s[os[b]]));
    }
    assert forall|a: int, b: int| 0 <= a < b < v.len() implies lex_lt(sk(#[trigger] v[a]), sk(#[trigger] v[b])) by {
        assert(kt[ot[a]] == sk(t[ot[a]]) && kt[ot[b]] == sk(t[ot[b]]));
    }
    assert forall|x: T| u.contains(x) <==> v.contains(x) by {
        if u.contains(x) {
            let a = choose|a: int| 0 <= a < u.len() && u[a] == x;
            assert(s[os[a]] == x);
            assert(s.contains(x));
            assert(s.to_multiset().count(x) > 0);
            assert(t.contains(x));
            let i = choose|i: int| 0 <= i < t.len() && t[i] == x;
            assert(occurs(ot, i));
            let j = choose|j: int| 0 <= j < ot.len() && ot[j] == i;
            assert(v[j] == x);
        }
        if v.contains(x) {
            let a = choose|a: int| 0 <= a < v.len() && v[a] == x;
            assert(t[ot[a]] == x);
            assert(t.contains(x));
            assert(t.to_multiset().count(x) > 0);
            assert(s.contains(x));
            let i = choose|i: int| 0 <= i < s.len() && s[i] == x;
            assert(occurs(os, i));
            let j = choose|j: int| 0 <= j < os.len() && os[j] == i;
            assert(u[j] == x);
        }
    }
    lemma_sorted_unique(u, v, sk);
    assert forall|j: int| 0 <= j < os.len() implies s[#[trigger] os[j]] == t[ot[j]] by {
        assert(u[j] == v[j]);
    }
    lemma_concat_pointwise(s, os, t, ot, f);
}

/// No byte of the UTF-8 encoding of a scalar other than NUL is zero.
proof fn lemma_scalar_bytes_nonzero(v: u32)
    requires
        is_scalar(v),
        v != 0,
    ensures
        forall|i: int| 0 <= i < encode_scalar(v).len() ==> #[trigger] encode_scalar(v)[i] != 0,
{
    if v <= 0x7F {
        assert((v & 0x7F) as u8 != 0) by (bit_vector)
            requires
                1 <= v <= 0x7F,
        ;
    } else {
        assert(0xC0u8 | ((v >> 6) & 0x1F) as u8 != 0) by (bit_vector);
        assert(0xE0u8 | ((v >> 12) & 0x0F) as u8 != 0) by (bit_vector);
        assert(0xF0u8 | ((v >> 18) & 0x7) as u8 != 0) by (bit_vector);
        assert(0x80u8 | (v & 0x3F) as u8 != 0) by (bit_vector);
        assert(0x80u8 | ((v >> 6) & 0x3F) as u8 != 0) by (bit_vector);
        assert(0x80u8 | ((v >> 12) & 0x3F) as u8 != 0) by (bit_vector);
    }
}

/// Text without a NUL character encodes to bytes without a zero byte.
proof fn lemma_utf8_nonzero(s: Seq<char>)
    requires
        forall|i: int| 0 <= i < s.len() ==> (#[trigger] s[i]) as u32 != 0,
    ensures
        forall|i: int| 0 <= i < encode_utf8(s).len() ==> #[trigger] encode_utf8(s)[i] != 0,
    decreases s.len(),
{
    if s.len() > 0 {
        let rest = s.drop_first();
        assert forall|i: int| 0 <= i < rest.len() implies (#[trigger] rest[i]) as u32 != 0 by {
            assert(rest[i] == s[i + 1]);
        }
        lemma_utf8_nonzero(rest);
        char_is_scalar(s[0]);
        lemma_scalar_bytes_nonzero(s[0] as u32);
        let head = encode_scalar(s[0] as u32);
        assert forall|i: int| 0 <= i < encode_utf8(s).len() implies #[trigger] encode_utf8(s)[i] != 0 by {
            if i < head.len() {
                assert(encode_utf8(s)[i] == head[i]);
            } else {
                assert(encode_utf8(s)[i] == encode_utf8(rest)[i - head.len()]);
            }
        }
    }
}

/// UTF-8 encoding is injective.
proof fn lemma_utf8_injective(a: Seq<char>, b: Seq<char>)
    requires
        encode_utf8(a) == encode_utf8(b),
    ensures
        a == b,
{
    encode_utf8_decode_utf8(a);
    encode_utf8_decode_utf8(b);
}

/// A zero byte after a zero-free prefix marks where the prefix ends.
proof fn lemma_split_at_zero(x1: Seq<u8>, y1: Seq<u8>, x2: Seq<u8>, y2: Seq<u8>)
    requires
        forall|i: int| 0 <= i < x1.len() ==> #[trigger] x1[i] != 0,
        forall|i: int| 0 <= i < x2.len() ==> #[trigger] x2[i] != 0,
        x1 + seq![0u8] + y1 == x2 + seq![0u8] + y2,
    ensures
        x1 == x2,
        y1 == y2,
{
    let w1 = x1 + seq![0u8] + y1;
    let w2 = x2 + seq![0u8] + y2;
    if x1.len() < x2.len() {
        assert(w1[x1.len() as int] == 0);
        assert(w2[x1.len() as int] == x2[x1.len() as int]);
    } else if x2.len() < x1.len() {
        assert(w2[x2.len() as int] == 0);
        assert(w1[x2.len() as int] == x1[x2.len() as int]);
    } else {
        assert forall|i: int| 0 <= i < x1.len() implies x1[i] == x2[i] by {
            assert(w1[i] == x1[i] && w2[i] == x2[i]);
        }
        assert(x1 =~= x2);
        let p1 = x1 + seq![0u8];
        let p2 = x2 + seq![0u8];
        assert(p1.len() == p2.len());
        assert(w1 == p1 + y1 && w2 == p2 + y2);
        assert(w1.len() == p1.len() + y1.len());
        assert(w2.len() == p2.len() + y2.len());
        assert(y1.len() == y2.len());
        assert forall|i: int| 0 <= i < y1.len() implies y1[i] == y2[i] by {
            assert(w1[p1.len() + i] == y1[i]);
            assert(w2[p2.len() + i] == y2[i]);
        }
        assert(y1 =~= y2);
    }
}

/// Distinct key ids give distinct key sort keys.
proof fn lemma_key_sort_keys_distinct(keys: Seq<IdentityKey>)
    requires
        forall|i: int, j: int| 0 <= i < j < keys.len() ==> (#[trigger] keys[i]).key_id@ != (#[trigger] keys[j]).key_id@,
    ensures
        forall|i: int, j: int| 0 <= i < j < keys.len() ==> key_sort_key(#[trigger] keys[i]) != key_sort_key(#[trigger] keys[j]),
{
    assert forall|i: int, j: int| 0 <= i < j < keys.len() implies key_sort_key(#[trigger] keys[i]) != key_sort_key(#[trigger] keys[j]) by {
        let a = keys[i];
        let b = keys[j];
        assert(a.key_id@.len() == 32 && b.key_id@.len() == 32);
        assert(key_sort_key(a).subrange(0, 32) =~= a.key_id@);
        assert(key_sort_key(b).subrange(0, 32) =~= b.key_id@);
    }
}

/// Tokens hold no NUL character.
proof fn lemma_token_nonzero(s: Seq<char>, max: nat)
    requires
        token_ok(s, max),
    ensures
        forall|i: int| 0 <= i < s.len() ==> (#[trigger] s[i]) as u32 != 0,
{
    assert forall|i: int| 0 <= i < s.len() implies (#[trigger] s[i]) as u32 != 0 by {
        assert(token_char(s[i]));
    }
}

/// Free text holds no NUL character.
proof fn lemma_text_nonzero(s: Seq<char>, max: nat)
    requires
        text_ok(s, max),
    ensures
        forall|i: int| 0 <= i < s.len() ==> (#[trigger] s[i]) as u32 != 0,
{
    assert forall|i: int| 0 <= i < s.len() implies (#[trigger] s[i]) as u32 != 0 by {
        assert(!control_char(s[i]));
    }
}

/// Distinct (key id, algorithm) pairs with token algorithms give distinct
/// signature sort keys.
proof fn lemma_signature_sort_keys_distinct(sigs: Seq<RecordSignature>)
    requires
        forall|i: int| 0 <= i < sigs.len() ==> token_ok((#[trigger] sigs[i]).algorithm@, MAX_ALGORITHM_BYTES as nat),
        distinct_signatures(sigs),
    ensures
        forall|i: int, j: int| 0 <= i < j < sigs.len() ==> signature_sort_key(#[trigger] sigs[i]) != signature_sort_key(#[trigger] sigs[j]),
{
    assert forall|i: int, j: int| 0 <= i < j < sigs.len() implies signature_sort_key(#[trigger] sigs[i]) != signature_sort_key(#[trigger] sigs[j]) by {
        let a = sigs[i];
        let b = sigs[j];
        if signature_sort_key(a) == signature_sort_key(b) {
            assert(a.key_id@.len() == 32 && b.key_id@.len() == 32);
            assert(signature_sort_key(a).subrange(0, 32) =~= a.key_id@);
            assert(signature_sort_key(b).subrange(0, 32) =~= b.key_id@);
            let ra = encode_utf8(a.algorithm@) + seq![0u8] + a.signature@;
            let rb = encode_utf8(b.algorithm@) + seq![0u8] + b.signature@;
            assert(signature_sort_key(a).subrange(32, signature_sort_key(a).len() as int) =~= ra);
            assert(signature_sort_key(b).subrange(32, signature_sort_key(b).len() as int) =~= rb);
            lemma_token_nonzero(a.algorithm@, MAX_ALGORITHM_BYTES as nat);
            lemma_token_nonzero(b.algorithm@, MAX_ALGORITHM_BYTES as nat);
            lemma_utf8_nonzero(a.algorithm@);
            lemma_utf8_nonzero(b.algorithm@);
            lemma_split_at_zero(encode_utf8(a.algorithm@), a.signature@, encode_utf8(b.algorithm@), b.signature@);
            lemma_utf8_injective(a.algorithm@, b.algorithm@);
        }
    }
}

/// Distinct endpoints give distinct endpoint sort keys.
proof fn lemma_endpoint_sort_keys_distinct(eps: Seq<IdentityEndpoint>)
    requires
        forall|i: int| 0 <= i < eps.len() ==> endpoint_ok(#[trigger] eps[i]),
        distinct_endpoints(eps),
    ensures
        forall|i: int, j: int| 0 <= i < j < eps.len() ==> endpoint_sort_key(#[trigger] eps[i]) != endpoint_sort_key(#[trigger] eps[j]),
{
    assert forall|i: int, j: int| 0 <= i < j < eps.len() implies endpoint_sort_key(#[trigger] eps[i]) != endpoint_sort_key(#[trigger] eps[j]) by {
        let a = eps[i];
        let b = eps[j];
        if endpoint_sort_key(a) == endpoint_sort_key(b) {
            assert(endpoint_ok(a) && endpoint_ok(b));
            lemma_token_nonzero(a.transport@, MAX_STRING_BYTES as nat);
            lemma_token_nonzero(b.transport@, MAX_STRING_BYTES as nat);
            lemma_text_nonzero(a.address@, MAX_STRING_BYTES as nat);
            lemma_text_nonzero(b.address@, MAX_STRING_BYTES as nat);
            lemma_utf8_nonzero(a.transport@);
            lemma_utf8_nonzero(b.transport@);
            lemma_utf8_nonzero(a.address@);
            lemma_utf8_nonzero(b.address@);
            let ta = encode_utf8(a.transport@);
            let tb = encode_utf8(b.transport@);
            let ya = encode_utf8(a.address@) + seq![0u8] + be16_bytes(a.priority);
            let yb = encode_utf8(b.address@) + seq![0u8] + be16_bytes(b.priority);
            assert(endpoint_sort_key(a) =~= ta + seq![0u8] + ya);
            assert(endpoint_sort_key(b) =~= tb + seq![0u8] + yb);
            lemma_split_at_zero(ta, ya, tb, yb);
            lemma_split_at_zero(encode_utf8(a.address@), be16_bytes(a.priority), encode_utf8(b.address@), be16_bytes(b.priority));
            lemma_utf8_injective(a.transport@, b.transport@);
            lemma_utf8_injective(a.address@, b.address@);
            assert(be16_bytes(a.priority)[0] == be16_bytes(b.priority)[0]);
            assert(be16_bytes(a.priority)[1] == be16_bytes(b.priority)[1]);
            assert(a.priority == b.priority);
            assert(same_endpoint(a, b));
        }
    }
}

/// Distinct capability texts give distinct capability sort keys.
proof fn lemma_capability_sort_keys_distinct(caps: Seq<String>)
    requires
        distinct_strings(caps),
    ensures
        forall|i: int, j: int| 0 <= i < j < caps.len() ==> capability_sort_key(#[trigger] caps[i]) != capability_sort_key(#[trigger] caps[j]),
{
    assert forall|i: int, j: int| 0 <= i < j < caps.len() implies capability_sort_key(#[trigger] caps[i]) != capability_sort_key(#[trigger] caps[j]) by {
        if capability_sort_key(caps[i]) == capability_sort_key(caps[j]) {
            lemma_utf8_injective(caps[i]@, caps[j]@);
        }
    }
}

/// The canonical payload of a valid record does not depend on the order in
/// which its keys, endpoints and capabilities are listed: two valid records
/// that agree on every other field and list the same entries, in any order,
/// have the same canonical payload.
pub proof fn lemma_canonical_payload_order_independent(r1: IdentityRecord, r2: IdentityRecord)
    requires
        record_body_ok(r1),
        record_body_ok(r2),
        r1.version == r2.version,
        r1.subject@ == r2.subject@,
        r1.signature_profile@ == r2.signature_profile@,
        r1.sequence == r2.sequence,
        r1.issued_at == r2.issued_at,
        r1.expires_at == r2.expires_at,
        r1.previous_record == r2.previous_record,
        r1.status == r2.status,
        r1.keys@.to_multiset() == r2.keys@.to_multiset(),
        r1.endpoints@.to_multiset() == r2.endpoints@.to_multiset(),
        r1.capabilities@.to_multiset() == r2.capabilities@.to_multiset(),
    ensures
        canonical_payload_spec(r1) == canonical_payload_spec(r2),
{
    lemma_key_sort_keys_distinct(r1.keys@);
    lemma_key_sort_keys_distinct(r2.keys@);
    lemma_endpoint_sort_keys_distinct(r1.endpoints@);
    lemma_endpoint_sort_keys_distinct(r2.endpoints@);
    lemma_capability_sort_keys_distinct(r1.capabilities@);
    lemma_capability_sort_keys_distinct(r2.capabilities@);
    let ksk = |k: IdentityKey| key_sort_key(k);
    let kf = |k: IdentityKey| key_bytes(k);
    let esk = |e: IdentityEndpoint| endpoint_sort_key(e);
    let ef = |e: IdentityEndpoint| endpoint_bytes(e);
    let csk = |c: String| capability_sort_key(c);
    let cf = |c: String| capability_bytes(c);
    lemma_canonical_list_reorder(r1.keys@, r2.keys@, ksk, kf);
    lemma_canonical_list_reorder(r1.endpoints@, r2.endpoints@, esk, ef);
    lemma_canonical_list_reorder(r1.capabilities@, r2.capabilities@, csk, cf);
    assert(canonical_payload_spec(r1) =~= canonical_payload_spec(r2));
}

/// The record hash of a valid record does not depend on the order in which
/// its keys, endpoints, capabilities and signatures are listed.
pub proof fn lemma_record_hash_order_independent(r1: IdentityRecord, r2: IdentityRecord)
    requires
        record_ok(r1),
        record_ok(r2),
        r1.version == r2.version,
        r1.subject@ == r2.subject@,
        r1.signature_profile@ == r2.signature_profile@,
        r1.sequence == r2.sequence,
        r1.issued_at == r2.issued_at,
        r1.expires_at == r2.expires_at,
        r1.previous_record == r2.previous_record,
        r1.status == r2.status,
        r1.keys@.to_multiset() == r2.keys@.to_multiset(),
        r1.endpoints@.to_multiset() == r2.endpoints@.to_multiset(),
        r1.capabilities@.to_multiset() == r2.capabilities@.to_multiset(),
        r1.signatures@.to_multiset() == r2.signatures@.to_multiset(),
    ensures
        canonical_payload_spec(r1) == canonical_payload_spec(r2),
        record_hash_spec(r1) == record_hash_spec(r2),
{
    lemma_canonical_payload_order_independent(r1, r2);
    lemma_signature_sort_keys_distinct(r1.signatures@);
    lemma_signature_sort_keys_distinct(r2.signatures@);
    let ssk = |s: RecordSignature| signature_sort_key(s);
    let sf = |s: RecordSignature| signature_bytes(s);
    lemma_canonical_list_reorder(r1.signatures@, r2.signatures@, ssk, sf);
    assert(record_hash_input(r1) =~= record_hash_input(r2));
}

/// Sequences with the same multiset have the same length and elements.
proof fn lemma_perm_contains<T>(s: Seq<T>, t: Seq<T>)
    requires
        s.to_multiset() == t.to_multiset(),
    ensures
        s.len() == t.len(),
        forall|x: T| s.contains(x) <==> t.contains(x),
{
    s.to_multiset_ensures();
    t.to_multiset_ensures();
    assert forall|x: T| s.contains(x) <==> t.contains(x) by {
        if s.contains(x) {
            assert(s.to_multiset().count(x) > 0);
        }
        if t.contains(x) {
            assert(t.to_multiset().count(x) > 0);
        }
    }
}

/// An element that a permutation holds twice is held twice before it too.
proof fn lemma_perm_repeat<T>(s: Seq<T>, t: Seq<T>, i: int, j: int)
    requires
        s.to_multiset() == t.to_multiset(),
        0 <= i < t.len(),
        0 <= j < t.len(),
        i != j,
        t[i] == t[j],
    ensures
        exists|a: int, b: int| 0 <= a < b < s.len() && s[a] == t[i] && s[b] == t[i],
{
    broadcast use vstd::multiset::group_multiset_axioms;

    let x = t[i];
    s.to_multiset_ensures();
    t.to_multiset_ensures();
    let tr = t.remove(j);
    let ii = if i < j { i } else { i - 1 };
    assert(tr[ii] == x);
    tr.to_multiset_ensures();
    assert(tr.contains(x));
    assert(tr.to_multiset().count(x) > 0);
    assert(tr.to_multiset() == t.to_multiset().remove(t[j]));
    assert(s.to_multiset().count(x) >= 2);
    assert(s.contains(x));
    let a = choose|a: int| 0 <= a < s.len() && s[a] == x;
    let sr = s.remove(a);
    sr.to_multiset_ensures();
    assert(sr.to_multiset() == s.to_multiset().remove(s[a]));
    assert(sr.to_multiset().count(x) > 0);
    assert(sr.contains(x));
    let b0 = choose|b: int| 0 <= b < sr.len() && sr[b] == x;
    let b = if b0 < a { b0 } else { b0 + 1 };
    assert(s[b] == x);
    if a < b {
        assert(0 <= a < b < s.len() && s[a] == x && s[b] == x);
    } else {
        assert(0 <= b < a < s.len() && s[b] == x && s[a] == x);
    }
}

/// A symmetric relation that holds between every two positions of a
/// sequence holds between every two positions of its permutations.
proof fn lemma_perm_pairwise<T>(s: Seq<T>, t: Seq<T>, ok: spec_fn(T, T) -> bool)
    requires
        s.to_multiset() == t.to_multiset(),
        forall|x: T, y: T| #[trigger] ok(x, y) ==> ok(y, x),
        forall|a: int, b: int| 0 <= a < b < s.len() ==> ok(#[trigger] s[a], #[trigger] s[b]),
    ensures
        forall|i: int, j: int| 0 <= i < j < t.len() ==> ok(#[trigger] t[i], #[trigger] t[j]),
{
    lemma_perm_contains(s, t);
    assert forall|i: int, j: int| 0 <= i < j < t.len() implies ok(#[trigger] t[i], #[trigger] t[j]) by {
        let x = t[i];
        let y = t[j];
        if x == y {
            lemma_perm_repeat(s, t, i, j);
            let (a, b) = choose|a: int, b: int| 0 <= a < b < s.len() && s[a] == x && s[b] == x;
            assert(ok(s[a], s[b]));
        } else {
            assert(t.contains(x) && t.contains(y));
            let a = choose|a: int| 0 <= a < s.len() && s[a] == x;
            let b = choose|b: int| 0 <= b < s.len() && s[b] == y;
            if a < b {
                assert(ok(s[a], s[b]));
            } else {
                assert(ok(s[b], s[a]));
            }
        }
    }
}

proof fn lemma_root_count_remove(t: Seq<IdentityKey>, j: int)
    requires
        0 <= j < t.len(),
    ensures
        root_count(t) == root_count(t.remove(j)) + if t[j].role is RootSigning { 1nat } else { 0nat },
    decreases t.len(),
{
    if j == t.len() - 1 {
        assert(t.remove(j) =~= t.drop_last());
    } else {
        lemma_root_count_remove(t.drop_last(), j);
        assert(t.remove(j).drop_last() =~= t.drop_last().remove(j));
        assert(t.remove(j).last() == t.last());
    }
}

proof fn lemma_root_count_perm(s: Seq<IdentityKey>, t: Seq<IdentityKey>)
    requires
        s.to_multiset() == t.to_multiset(),
    ensures
        root_count(s) == root_count(t),
    decreases s.len(),
{
    lemma_perm_contains(s, t);
    if s.len() > 0 {
        let x = s.last();
        assert(s.contains(x));
        let j = choose|j: int| 0 <= j < t.len() && t[j] == x;
        s.to_multiset_ensures();
        t.to_multiset_ensures();
        assert(s.remove(s.len() - 1) =~= s.drop_last());
        assert(s.drop_last().to_multiset() == s.to_multiset().remove(x));
        assert(t.remove(j).to_multiset() == t.to_multiset().remove(x));
        lemma_root_count_perm(s.drop_last(), t.remove(j));
        lemma_root_count_remove(t, j);
    }
}

/// Two records that differ only in the order of their keys, endpoints and
/// capabilities.
pub open spec fn reordered(r1: IdentityRecord, r2: IdentityRecord) -> bool {
    &&& r1.version == r2.version
    &&& r1.subject@ == r2.subject@
    &&& r1.signature_profile@ == r2.signature_profile@
    &&& r1.sequence == r2.sequence
    &&& r1.issued_at == r2.issued_at
    &&& r1.expires_at == r2.expires_at
    &&& r1.previous_record == r2.previous_record
    &&& r1.status == r2.status
    &&& r1.keys@.to_multiset() == r2.keys@.to_multiset()
    &&& r1.endpoints@.to_multiset() == r2.endpoints@.to_multiset()
    &&& r1.capabilities@.to_multiset() == r2.capabilities@.to_multiset()
    &&& r1.signatures@ == r2.signatures@
}

proof fn lemma_record_ok_reordered(r1: IdentityRecord, r2: IdentityRecord)
    requires
        reordered(r1, r2),
        record_ok(r1),
    ensures
        record_ok(r2),
{
    let k1 = r1.keys@;
    let k2 = r2.keys@;
    lemma_perm_contains(k1, k2);
    lemma_perm_contains(r1.endpoints@, r2.endpoints@);
    lemma_perm_contains(r1.capabilities@, r2.capabilities@);
    assert forall|i: int| 0 <= i < k2.len() implies key_entry_ok(#[trigger] k2[i]) by {
        assert(k2.contains(k2[i]));
        let a = choose|a: int| 0 <= a < k1.len() && k1[a] == k2[i];
        assert(key_entry_ok(k1[a]));
    }
    let kid = |x: IdentityKey, y: IdentityKey| x.key_id@ != y.key_id@;
    assert forall|a: int, b: int| 0 <= a < b < k1.len() implies kid(#[trigger] k1[a], #[trigger] k1[b]) by {}
    lemma_perm_pairwise(k1, k2, kid);
    assert(distinct_key_ids(k2)) by {
        assert forall|i: int, j: int| 0 <= i < j < k2.len() implies (#[trigger] k2[i]).key_id@ != (#[trigger] k2[j]).key_id@ by {
            assert(kid(k2[i], k2[j]));
        }
    }
    lemma_root_count_perm(k1, k2);
    assert(subject_bound(r2)) by {
        assert forall|i: int| 0 <= i < k2.len() && (#[trigger] k2[i]).role is RootSigning implies r2.subject@
            == identity_id_of(k2[i].public_key@) by {
            assert(k2.contains(k2[i]));
            let a = choose|a: int| 0 <= a < k1.len() && k1[a] == k2[i];
            assert(k1[a].role is RootSigning);
        }
    }
    let e1 = r1.endpoints@;
    let e2 = r2.endpoints@;
    assert forall|i: int| 0 <= i < e2.len() implies endpoint_ok(#[trigger] e2[i]) by {
        assert(e2.contains(e2[i]));
        let a = choose|a: int| 0 <= a < e1.len() && e1[a] == e2[i];
        assert(endpoint_ok(e1[a]));
    }
    let ed = |x: IdentityEndpoint, y: IdentityEndpoint| !same_endpoint(x, y);
    assert forall|a: int, b: int| 0 <= a < b < e1.len() implies ed(#[trigger] e1[a], #[trigger] e1[b]) by {}
    lemma_perm_pairwise(e1, e2, ed);
    assert(distinct_endpoints(e2)) by {
        assert forall|i: int, j: int| 0 <= i < j < e2.len() implies !same_endpoint(#[trigger] e2[i], #[trigger] e2[j]) by {
            assert(ed(e2[i], e2[j]));
        }
    }
    let c1 = r1.capabilities@;
    let c2 = r2.capabilities@;
    assert forall|i: int| 0 <= i < c2.len() implies token_ok(#[trigger] c2[i]@, MAX_STRING_BYTES as nat) by {
        assert(c2.contains(c2[i]));
        let a = choose|a: int| 0 <= a < c1.len() && c1[a] == c2[i];
        assert(token_ok(c1[a]@, MAX_STRING_BYTES as nat));
    }
    let cd = |x: String, y: String| x@ != y@;
    assert forall|a: int, b: int| 0 <= a < b < c1.len() implies cd(#[trigger] c1[a], #[trigger] c1[b]) by {}
    lemma_perm_pairwise(c1, c2, cd);
    assert(distinct_strings(c2)) by {
        assert forall|i: int, j: int| 0 <= i < j < c2.len() implies (#[trigger] c2[i])@ != (#[trigger] c2[j])@ by {
            assert(cd(c2[i], c2[j]));
        }
    }
    assert(status_ok(r2));
    assert(record_body_ok(r2));
    let sg = r2.signatures@;
    assert forall|j: int| 0 <= j < sg.len() implies signature_entry_ok(k2, #[trigger] sg[j]) by {
        assert(signature_entry_ok(k1, r1.signatures@[j]));
        let i = choose|i: int| 0 <= i < k1.len() && (#[trigger] k1[i]).key_id@ == sg[j].key_id@
            && k1[i].algorithm@ == sg[j].algorithm@ && (k1[i].role is RootSigning || k1[i].role is RecoverySigning);
        assert(k1.contains(k1[i]));
        let c = choose|c: int| 0 <= c < k2.len() && k2[c] == k1[i];
        assert(k2[c].key_id@ == sg[j].key_id@);
    }
    assert(has_root_signature(r2)) by {
        let (j, i) = choose|j: int, i: int| 0 <= j < r1.signatures@.len() && 0 <= i < k1.len()
            && (#[trigger] r1.signatures@[j]).key_id@ == (#[trigger] k1[i]).key_id@ && k1[i].role is RootSigning;
        assert(k1.contains(k1[i]));
        let c = choose|c: int| 0 <= c < k2.len() && k2[c] == k1[i];
        assert(sg[j].key_id@ == k2[c].key_id@);
    }
}

proof fn lemma_signing_key_reordered(r1: IdentityRecord, r2: IdentityRecord, s: RecordSignature)
    requires
        reordered(r1, r2),
        record_ok(r1),
        record_ok(r2),
        r1.signatures@.contains(s),
    ensures
        signing_key(r1.keys@, s) == signing_key(r2.keys@, s),
{
    let k1 = r1.keys@;
    let k2 = r2.keys@;
    lemma_perm_contains(k1, k2);
    let j = choose|j: int| 0 <= j < r1.signatures@.len() && r1.signatures@[j] == s;
    assert(signature_entry_ok(k1, r1.signatures@[j]));
    assert(signature_entry_ok(k2, r2.signatures@[j]));
    let i1 = choose|i: int| 0 <= i < k1.len() && (#[trigger] k1[i]).key_id@ == s.key_id@;
    let i2 = choose|i: int| 0 <= i < k2.len() && (#[trigger] k2[i]).key_id@ == s.key_id@;
    assert(k2.contains(k2[i2]));
    let c = choose|c: int| 0 <= c < k1.len() && k1[c] == k2[i2];
    if c != i1 {
        if c < i1 {
            assert(k1[c].key_id@ != k1[i1].key_id@);
        } else {
            assert(k1[i1].key_id@ != k1[c].key_id@);
        }
    }
}

proof fn lemma_signatures_outcome_reordered(r1: IdentityRecord, r2: IdentityRecord, p: VerificationPolicy, payload: Seq<u8>, n: nat)
    requires
        reordered(r1, r2),
        record_ok(r1),
        record_ok(r2),
        n <= r1.signatures@.len(),
    ensures
        signatures_outcome(r1, p, payload, n) == signatures_outcome(r2, p, payload, n),
    decreases n,
{
    if n > 0 {
        lemma_signatures_outcome_reordered(r1, r2, p, payload, (n - 1) as nat);
        let s = r1.signatures@[n - 1];
        assert(r1.signatures@.contains(s));
        lemma_signing_key_reordered(r1, r2, s);
    }
}

/// Verification and the record hash do not depend on the order in which a
/// record lists its keys, endpoints and capabilities: a record verifies
/// exactly when its reordering does, with the same verdict, and a valid
/// record has the same hash as its reordering.
#[verifier::spinoff_prover]
pub proof fn lemma_verify_order_independent(r1: IdentityRecord, r2: IdentityRecord, p: VerificationPolicy)
    requires
        reordered(r1, r2),
    ensures
        record_ok(r1) <==> record_ok(r2),
        verify_outcome(r1, p) == verify_outcome(r2, p),
        record_ok(r1) ==> canonical_payload_spec(r1) == canonical_payload_spec(r2),
        record_ok(r1) ==> record_hash_spec(r1) == record_hash_spec(r2),
{
    assert(reordered(r2, r1));
    if record_ok(r1) {
        lemma_record_ok_reordered(r1, r2);
    }
    if record_ok(r2) {
        lemma_record_ok_reordered(r2, r1);
    }
    reveal(verify_outcome);
    if record_ok(r1) {
        lemma_canonical_payload_order_independent(r1, r2);
        lemma_record_hash_order_independent(r1, r2);
        lemma_signatures_outcome_reordered(r1, r2, p, canonical_payload_spec(r1), r1.signatures@.len());
    }
}

/// Length-prefixed byte strings, concatenated in order.
spec fn joined(xs: Seq<Seq<u8>>) -> Seq<u8>
    decreases xs.len(),
{
    if xs.len() == 0 {
        Seq::empty()
    } else {
        joined(xs.drop_last()) + len_prefixed(xs.last())
    }
}

/// Equal big-endian encodings hold equal values.
proof fn lemma_be32_injective(a: u32, b: u32)
    requires
        be32_bytes(a) == be32_bytes(b),
    ensures
        a == b,
{
    lemma_be32_order(a, b);
    lemma_be32_order(b, a);
    lemma_lex_irreflexive(be32_bytes(a));
}

/// The first string of a concatenation stands at its front.
proof fn lemma_joined_first(xs: Seq<Seq<u8>>)
    requires
        xs.len() > 0,
    ensures
        joined(xs) == len_prefixed(xs[0]) + joined(xs.drop_first()),
    decreases xs.len(),
{
    if xs.len() == 1 {
        assert(joined(xs.drop_last()) == Seq::<u8>::empty());
        assert(joined(xs.drop_first()) == Seq::<u8>::empty());
        assert(joined(xs) =~= len_prefixed(xs[0]) + joined(xs.drop_first()));
    } else {
        let d = xs.drop_last();
        lemma_joined_first(d);
        assert(xs.drop_first().drop_last() =~= d.drop_first());
        assert(xs.drop_first().last() == xs.last());
        assert(d[0] == xs[0]);
        assert(joined(xs) =~= len_prefixed(xs[0]) + joined(xs.drop_first()));
    }
}

/// Length-prefixed strings shorter than 2^32 bytes read back: equal
/// concatenations of equally many such strings hold the same strings.
proof fn lemma_joined_injective(xs: Seq<Seq<u8>>, ys: Seq<Seq<u8>>)
    requires
        xs.len() == ys.len(),
        forall|i: int| 0 <= i < xs.len() ==> (#[trigger] xs[i]).len() < 0x1_0000_0000,
        forall|i: int| 0 <= i < ys.len() ==> (#[trigger] ys[i]).len() < 0x1_0000_0000,
        joined(xs) == joined(ys),
    ensures
        xs == ys,
    decreases xs.len(),
{
    if xs.len() > 0 {
        lemma_joined_first(xs);
        lemma_joined_first(ys);
        let a = xs[0];
        let b = ys[0];
        let xr = xs.drop_first();
        let yr = ys.drop_first();
        let j = joined(xs);
        assert(be32_bytes(a.len() as u32) =~= j.subrange(0, 4));
        assert(be32_bytes(b.len() as u32) =~= j.subrange(0, 4));
        lemma_be32_injective(a.len() as u32, b.len() as u32);
        assert(a.len() == b.len());
        assert(a =~= j.subrange(4, 4 + a.len() as int));
        assert(b =~= j.subrange(4, 4 + b.len() as int));
        assert(joined(xr) =~= j.subrange(4 + a.len() as int, j.len() as int));
        assert(joined(yr) =~= j.subrange(4 + b.len() as int, j.len() as int));
        assert forall|i: int| 0 <= i < xr.len() implies (#[trigger] xr[i]).len() < 0x1_0000_0000 by {
            assert(xr[i] == xs[i + 1]);
        }
        assert forall|i: int| 0 <= i < yr.len() implies (#[trigger] yr[i]).len() < 0x1_0000_0000 by {
            assert(yr[i] == ys[i + 1]);
        }
        lemma_joined_injective(xr, yr);
        assert forall|k: int| 0 <= k < xs.len() implies xs[k] == ys[k] by {
            if k > 0 {
                assert(xs[k] == xr[k - 1] && ys[k] == yr[k - 1]);
            }
        }
        assert(xs =~= ys);
    }
}

/// UTF-8 spends at most four bytes on a character.
proof fn lemma_utf8_len_bound(s: Seq<char>)
    ensures
        encode_utf8(s).len() <= 4 * s.len(),
    decreases s.len(),
{
    if s.len() > 0 {
        lemma_utf8_len_bound(s.drop_first());
    }
}

/// The body of a capability list is the concatenation of the capability
/// texts in the given order.
proof fn lemma_capability_concat_joined(caps: Seq<String>, order: Seq<int>)
    ensures
        concat_in_order(caps, order, |c: String| capability_bytes(c)) == joined(
            order.map_values(|i: int| encode_utf8(caps[i]@)),
        ),
    decreases order.len(),
{
    if order.len() > 0 {
        lemma_capability_concat_joined(caps, order.drop_last());
        assert(order.map_values(|i: int| encode_utf8(caps[i]@)).drop_last() =~= order.drop_last().map_values(
            |i: int| encode_utf8(caps[i]@),
        ));
    }
}

/// Reading a sequence in insertion order gives back the same elements.
proof fn lemma_sorted_order_multiset<A>(n: nat, keys: Seq<Seq<u8>>, s: Seq<A>)
    requires
        n <= s.len(),
    ensures
        sorted_order(n, keys).map_values(|i: int| s[i]).to_multiset() == s.take(n as int).to_multiset(),
    decreases n,
{
    if n == 0 {
        assert(sorted_order(0, keys).map_values(|i: int| s[i]) =~= Seq::<A>::empty());
        assert(s.take(0) =~= Seq::<A>::empty());
    } else {
        let prev = sorted_order((n - 1) as nat, keys);
        lemma_sorted_order_multiset((n - 1) as nat, keys, s);
        lemma_insert_position(prev, n - 1, keys);
        let p = insert_position(prev, n - 1, keys);
        let pm = prev.map_values(|i: int| s[i]);
        assert(sorted_order(n, keys) == prev.insert(p, n - 1));
        assert(sorted_order(n, keys).map_values(|i: int| s[i]) =~= pm.insert(p, s[n - 1]));
        vstd::seq_lib::to_multiset_insert(pm, p, s[n - 1]);
        assert(s.take(n as int) =~= s.take(n - 1).push(s[n - 1]));
        vstd::seq_lib::to_multiset_build(s.take(n - 1), s[n - 1]);
    }
}

/// Two capability lists of valid records with the same canonical encoding
/// hold the same capability texts, counted with multiplicity.
proof fn lemma_capability_list_injective(s: Seq<String>, t: Seq<String>)
    requires
        s.len() <= MAX_CAPABILITIES,
        t.len() <= MAX_CAPABILITIES,
        forall|i: int| 0 <= i < s.len() ==> token_ok(#[trigger] s[i]@, MAX_STRING_BYTES as nat),
        forall|i: int| 0 <= i < t.len() ==> token_ok(#[trigger] t[i]@, MAX_STRING_BYTES as nat),
        canonical_list(s, |c: String| capability_sort_key(c), |c: String| capability_bytes(c)) == canonical_list(
            t,
            |c: String| capability_sort_key(c),
            |c: String| capability_bytes(c),
        ),
    ensures
        s.map_values(|c: String| c@).to_multiset() == t.map_values(|c: String| c@).to_multiset(),
{
    let csk = |c: String| capability_sort_key(c);
    let cf = |c: String| capability_bytes(c);
    let ks = s.map_values(csk);
    let kt = t.map_values(csk);
    let l = canonical_list(s, csk, cf);
    assert(be32_bytes(s.len() as u32) =~= l.subrange(0, 4));
    assert(be32_bytes(t.len() as u32) =~= l.subrange(0, 4));
    lemma_be32_injective(s.len() as u32, t.len() as u32);
    let n = s.len();
    assert(t.len() == n);
    let os = sorted_order(n, ks);
    let ot = sorted_order(n, kt);
    assert(concat_in_order(s, os, cf) =~= l.subrange(4, l.len() as int));
    assert(concat_in_order(t, ot, cf) =~= l.subrange(4, l.len() as int));
    lemma_capability_concat_joined(s, os);
    lemma_capability_concat_joined(t, ot);
    lemma_sorted_order_len(n, ks);
    lemma_sorted_order_len(n, kt);
    let xs = os.map_values(|i: int| encode_utf8(s[i]@));
    let ys = ot.map_values(|i: int| encode_utf8(t[i]@));
    assert forall|i: int| 0 <= i < xs.len() implies (#[trigger] xs[i]).len() < 0x1_0000_0000 by {
        assert(0 <= os[i] < n);
        assert(token_ok(s[os[i]]@, MAX_STRING_BYTES as nat));
        lemma_utf8_len_bound(s[os[i]]@);
    }
    assert forall|i: int| 0 <= i < ys.len() implies (#[trigger] ys[i]).len() < 0x1_0000_0000 by {
        assert(0 <= ot[i] < n);
        assert(token_ok(t[ot[i]]@, MAX_STRING_BYTES as nat));
        lemma_utf8_len_bound(t[ot[i]]@);
    }
    lemma_joined_injective(xs, ys);
    let vs = s.map_values(|c: String| c@);
    let vt = t.map_values(|c: String| c@);
    let us = os.map_values(|i: int| vs[i]);
    let ut = ot.map_values(|i: int| vt[i]);
    assert forall|j: int| 0 <= j < n implies us[j] == ut[j] by {
        assert(xs[j] == ys[j]);
        assert(0 <= os[j] < n && 0 <= ot[j] < n);
        lemma_utf8_injective(s[os[j]]@, t[ot[j]]@);
    }
    assert(us =~= ut);
    lemma_sorted_order_multiset(n, ks, vs);
    lemma_sorted_order_multiset(n, kt, vt);
    assert(vs.take(n as int) =~= vs);
    assert(vt.take(n as int) =~= vt);
}

/// Everything the canonical payload holds before the capability list.
spec fn payload_head(r: IdentityRecord) -> Seq<u8> {
    encode_utf8(RECORD_DOMAIN@) + be16_bytes(r.version) + r.subject@
        + len_prefixed(encode_utf8(r.signature_profile@)) + be64_bytes(r.sequence)
        + be64_bytes(r.issued_at) + be64_bytes(r.expires_at) + opt_hash_bytes(r.previous_record)
        + status_bytes(r.status)
        + canonical_list(r.keys@, |k: IdentityKey| key_sort_key(k), |k: IdentityKey| key_bytes(k))
        + canonical_list(r.endpoints@, |e: IdentityEndpoint| endpoint_sort_key(e), |e: IdentityEndpoint| endpoint_bytes(e))
}

/// The canonical payload covers the capabilities: two valid records that
/// agree on every other signed field but hold different capability texts
/// (counted with multiplicity, in whatever order) have different canonical
/// payloads, so a signature over one record's payload does not cover the
/// other's.
pub proof fn lemma_canonical_payload_distinguishes_capabilities(r1: IdentityRecord, r2: IdentityRecord)
    requires
        record_body_ok(r1),
        record_body_ok(r2),
        r1.version == r2.version,
        r1.subject@ == r2.subject@,
        r1.signature_profile@ == r2.signature_profile@,
        r1.sequence == r2.sequence,
        r1.issued_at == r2.issued_at,
        r1.expires_at == r2.expires_at,
        r1.previous_record == r2.previous_record,
        r1.status == r2.status,
        r1.keys@ == r2.keys@,
        r1.endpoints@ == r2.endpoints@,
        r1.capabilities@.map_values(|c: String| c@).to_multiset() != r2.capabilities@.map_values(|c: String| c@).to_multiset(),
    ensures
        canonical_payload_spec(r1) != canonical_payload_spec(r2),
{
    if canonical_payload_spec(r1) == canonical_payload_spec(r2) {
        let csk = |c: String| capability_sort_key(c);
        let cf = |c: String| capability_bytes(c);
        let c1 = canonical_list(r1.capabilities@, csk, cf);
        let c2 = canonical_list(r2.capabilities@, csk, cf);
        let h1 = payload_head(r1);
        let h2 = payload_head(r2);
        let pl = canonical_payload_spec(r1);
        assert(pl =~= h1 + c1);
        assert(canonical_payload_spec(r2) =~= h2 + c2);
        assert(h1 =~= h2);
        assert(c1 =~= pl.subrange(h1.len() as int, pl.len() as int));
        assert(c2 =~= pl.subrange(h1.len() as int, pl.len() as int));
        lemma_capability_list_injective(r1.capabilities@, r2.capabilities@);
    }
}

} // verus!
