//! The canonical signed payload of a record and the record hash.
//!
//! Collections are emitted in a canonical order so that the payload does not
//! depend on the order in which keys, endpoints, capabilities or signatures
//! were listed. Orders are byte-lexicographic over the sort keys below; for
//! validated records (whose identifiers and texts hold no NUL character) they
//! coincide with field-by-field ordering.

use vstd::prelude::*;
use vstd::utf8::encode_utf8;
use crate::digest::{sha256, sha256_spec};
use crate::wire::{
    be16_bytes, be32_bytes, be64_bytes, len_prefixed, push_be16, push_be32, push_be64, push_bytes,
    push_len_prefixed, sort_indices, sorted_order, lemma_sorted_order_len,
};
use super::record::{record_body_ok, record_ok};
use super::types::{
    role_code, Hash32, IdentityEndpoint, IdentityKey, IdentityRecord, RecordHash, RecordSignature,
    RecordStatus, Result, RECORD_DOMAIN,
};

verus! {

/// Presence byte followed by the digest, if any.
pub open spec fn opt_hash_bytes(h: Option<Hash32>) -> Seq<u8> {
    match h {
        Some(x) => seq![1u8] + x@,
        None => seq![0u8],
    }
}

/// Canonical encoding of a record status.
pub open spec fn status_bytes(s: RecordStatus) -> Seq<u8> {
    match s {
        RecordStatus::Active => seq![0u8],
        RecordStatus::Revoked { revoked_at, reason } => seq![1u8] + be64_bytes(revoked_at)
            + len_prefixed(encode_utf8(reason@)),
    }
}

/// Canonical encoding of one key.
pub open spec fn key_bytes(k: IdentityKey) -> Seq<u8> {
    seq![role_code(k.role)] + len_prefixed(encode_utf8(k.algorithm@)) + k.key_id@
        + len_prefixed(k.public_key@) + be64_bytes(k.not_before) + be64_bytes(k.not_after)
        + opt_hash_bytes(k.previous_key_id)
}

/// Keys are ordered by (key id, role, algorithm).
pub open spec fn key_sort_key(k: IdentityKey) -> Seq<u8> {
    k.key_id@ + seq![role_code(k.role)] + encode_utf8(k.algorithm@)
}

/// Canonical encoding of one endpoint.
pub open spec fn endpoint_bytes(e: IdentityEndpoint) -> Seq<u8> {
    len_prefixed(encode_utf8(e.transport@)) + len_prefixed(encode_utf8(e.address@)) + be16_bytes(e.priority)
}

/// Endpoints are ordered by (transport, address, priority).
pub open spec fn endpoint_sort_key(e: IdentityEndpoint) -> Seq<u8> {
    encode_utf8(e.transport@) + seq![0u8] + encode_utf8(e.address@) + seq![0u8] + be16_bytes(e.priority)
}

/// Canonical encoding of one capability.
pub open spec fn capability_bytes(c: String) -> Seq<u8> {
    len_prefixed(encode_utf8(c@))
}

/// Capabilities are ordered by their text.
pub open spec fn capability_sort_key(c: String) -> Seq<u8> {
    encode_utf8(c@)
}

/// Hash encoding of one signature.
pub open spec fn signature_bytes(s: RecordSignature) -> Seq<u8> {
    s.key_id@ + len_prefixed(encode_utf8(s.algorithm@)) + len_prefixed(s.signature@)
}

/// Signatures are ordered by (key id, algorithm, signature bytes).
pub open spec fn signature_sort_key(s: RecordSignature) -> Seq<u8> {
    s.key_id@ + encode_utf8(s.algorithm@) + seq![0u8] + s.signature@
}

/// The encodings of `items`, concatenated in the given index order.
pub open spec fn concat_in_order<T>(items: Seq<T>, order: Seq<int>, f: spec_fn(T) -> Seq<u8>) -> Seq<u8>
    decreases order.len(),
{
    if order.len() == 0 {
        Seq::empty()
    } else {
        concat_in_order(items, order.drop_last(), f) + f(items[order.last()])
    }
}

/// A collection in canonical order, preceded by its element count.
pub open spec fn canonical_list<T>(items: Seq<T>, sort_key: spec_fn(T) -> Seq<u8>, f: spec_fn(T) -> Seq<u8>) -> Seq<u8> {
    be32_bytes(items.len() as u32)
        + concat_in_order(items, sorted_order(items.len(), items.map_values(sort_key)), f)
}

/// The payload covered by record signatures.
pub open spec fn canonical_payload_spec(r: IdentityRecord) -> Seq<u8> {
    encode_utf8(RECORD_DOMAIN@) + be16_bytes(r.version) + r.subject@
        + len_prefixed(encode_utf8(r.signature_profile@)) + be64_bytes(r.sequence)
        + be64_bytes(r.issued_at) + be64_bytes(r.expires_at) + opt_hash_bytes(r.previous_record)
        + status_bytes(r.status)
        + canonical_list(r.keys@, |k: IdentityKey| key_sort_key(k), |k: IdentityKey| key_bytes(k))
        + canonical_list(r.endpoints@, |e: IdentityEndpoint| endpoint_sort_key(e), |e: IdentityEndpoint| endpoint_bytes(e))
        + canonical_list(r.capabilities@, |c: String| capability_sort_key(c), |c: String| capability_bytes(c))
}

/// The bytes hashed into a record hash.
pub open spec fn record_hash_input(r: IdentityRecord) -> Seq<u8> {
    encode_utf8(RECORD_DOMAIN@) + len_prefixed(canonical_payload_spec(r))
        + canonical_list(r.signatures@, |s: RecordSignature| signature_sort_key(s), |s: RecordSignature| signature_bytes(s))
}

/// The record hash: SHA-256 over the domain, payload and sorted signatures.
pub open spec fn record_hash_spec(r: IdentityRecord) -> Seq<u8> {
    sha256_spec(record_hash_input(r))
}

fn push_opt_hash(out: &mut Vec<u8>, h: &Option<Hash32>)
    ensures
        final(out)@ == old(out)@ + opt_hash_bytes(*h),
{
    let ghost start = out@;
    match h {
        Some(x) => {
            out.push(1u8);
            push_bytes(out, x.0.as_slice());
        },
        None => {
            out.push(0u8);
        },
    }
    assert(out@ =~= start + opt_hash_bytes(*h));
}

fn push_key(out: &mut Vec<u8>, k: &IdentityKey)
    ensures
        final(out)@ == old(out)@ + key_bytes(*k),
{
    let ghost start = out@;
    out.push(k.role.code());
    push_len_prefixed(out, k.algorithm.as_str().as_bytes());
    push_bytes(out, k.key_id.0.as_slice());
    push_len_prefixed(out, k.public_key.as_slice());
    push_be64(out, k.not_before);
    push_be64(out, k.not_after);
    push_opt_hash(out, &k.previous_key_id);
    assert(out@ =~= start + key_bytes(*k));
}

fn key_sort_key_of(k: &IdentityKey) -> (v: Vec<u8>)
    ensures
        v@ == key_sort_key(*k),
{
    let mut v: Vec<u8> = Vec::new();
    push_bytes(&mut v, k.key_id.0.as_slice());
    v.push(k.role.code());
    push_bytes(&mut v, k.algorithm.as_str().as_bytes());
    assert(v@ =~= key_sort_key(*k));
    v
}

fn push_endpoint(out: &mut Vec<u8>, e: &IdentityEndpoint)
    ensures
        final(out)@ == old(out)@ + endpoint_bytes(*e),
{
    let ghost start = out@;
    push_len_prefixed(out, e.transport.as_str().as_bytes());
    push_len_prefixed(out, e.address.as_str().as_bytes());
    push_be16(out, e.priority);
    assert(out@ =~= start + endpoint_bytes(*e));
}

fn endpoint_sort_key_of(e: &IdentityEndpoint) -> (v: Vec<u8>)
    ensures
        v@ == endpoint_sort_key(*e),
{
    let mut v: Vec<u8> = Vec::new();
    push_bytes(&mut v, e.transport.as_str().as_bytes());
    v.push(0u8);
    push_bytes(&mut v, e.address.as_str().as_bytes());
    v.push(0u8);
    push_be16(&mut v, e.priority);
    assert(v@ =~= endpoint_sort_key(*e));
    v
}

fn push_signature(out: &mut Vec<u8>, s: &RecordSignature)
    ensures
        final(out)@ == old(out)@ + signature_bytes(*s),
{
    let ghost start = out@;
    push_bytes(out, s.key_id.0.as_slice());
    push_len_prefixed(out, s.algorithm.as_str().as_bytes());
    push_len_prefixed(out, s.signature.as_slice());
    assert(out@ =~= start + signature_bytes(*s));
}

fn signature_sort_key_of(s: &RecordSignature) -> (v: Vec<u8>)
    ensures
        v@ == signature_sort_key(*s),
{
    let mut v: Vec<u8> = Vec::new();
    push_bytes(&mut v, s.key_id.0.as_slice());
    push_bytes(&mut v, s.algorithm.as_str().as_bytes());
    v.push(0u8);
    push_bytes(&mut v, s.signature.as_slice());
    assert(v@ =~= signature_sort_key(*s));
    v
}

proof fn lemma_concat_push<T>(items: Seq<T>, order: Seq<int>, i: int, f: spec_fn(T) -> Seq<u8>)
    requires
        0 <= i < order.len(),
    ensures
        concat_in_order(items, order.take(i + 1), f) == concat_in_order(items, order.take(i), f) + f(items[order[i]]),
{
    assert(order.take(i + 1).drop_last() =~= order.take(i));
}

fn push_keys(out: &mut Vec<u8>, keys: &Vec<IdentityKey>)
    ensures
        final(out)@ == old(out)@ + canonical_list(keys@, |k: IdentityKey| key_sort_key(k), |k: IdentityKey| key_bytes(k)),
{
    let ghost start = out@;
    let ghost sk = |k: IdentityKey| key_sort_key(k);
    let ghost f = |k: IdentityKey| key_bytes(k);
    let mut sort_keys: Vec<Vec<u8>> = Vec::new();
    let mut i: usize = 0;
    while i < keys.len()
        invariant
            i <= keys@.len(),
            sort_keys@.len() == i,
            forall|j: int| 0 <= j < i ==> (#[trigger] sort_keys@[j])@ == key_sort_key(keys@[j]),
        decreases keys@.len() - i,
    {
        sort_keys.push(key_sort_key_of(&keys[i]));
        i = i + 1;
    }
    assert(sort_keys@.map_values(|k: Vec<u8>| k@) =~= keys@.map_values(sk));
    let order = sort_indices(&sort_keys);
    let ghost ord = sorted_order(keys@.len(), keys@.map_values(sk));
    proof {
        lemma_sorted_order_len(keys@.len(), keys@.map_values(sk));
    }
    push_be32(out, keys.len() as u32);
    let ghost mid = out@;
    let mut j: usize = 0;
    while j < order.len()
        invariant
            j <= order@.len(),
            order@.len() == keys@.len(),
            ord.len() == keys@.len(),
            forall|t: int| 0 <= t < order@.len() ==> order@[t] as int == ord[t],
            forall|t: int| 0 <= t < order@.len() ==> #[trigger] order@[t] < keys@.len(),
            out@ == mid + concat_in_order(keys@, ord.take(j as int), f),
            f == (|x: IdentityKey| key_bytes(x)),
        decreases order@.len() - j,
    {
        let ghost before = out@;
        let idx = order[j];
        proof {
            lemma_concat_push(keys@, ord, j as int, f);
            assert(idx as int == ord[j as int]);
            assert(f(keys@[idx as int]) == key_bytes(keys@[idx as int]));
        }
        push_key(out, &keys[idx]);
        j = j + 1;
        assert(out@ =~= mid + concat_in_order(keys@, ord.take(j as int), f));
    }
    assert(ord.take(ord.len() as int) =~= ord);
    assert(out@ =~= start + canonical_list(keys@, sk, f));
}

fn push_endpoints(out: &mut Vec<u8>, eps: &Vec<IdentityEndpoint>)
    ensures
        final(out)@ == old(out)@ + canonical_list(eps@, |e: IdentityEndpoint| endpoint_sort_key(e), |e: IdentityEndpoint| endpoint_bytes(e)),
{
    let ghost start = out@;
    let ghost sk = |e: IdentityEndpoint| endpoint_sort_key(e);
    let ghost f = |e: IdentityEndpoint| endpoint_bytes(e);
    let mut sort_keys: Vec<Vec<u8>> = Vec::new();
    let mut i: usize = 0;
    while i < eps.len()
        invariant
            i <= eps@.len(),
            sort_keys@.len() == i,
            forall|j: int| 0 <= j < i ==> (#[trigger] sort_keys@[j])@ == endpoint_sort_key(eps@[j]),
        decreases eps@.len() - i,
    {
        sort_keys.push(endpoint_sort_key_of(&eps[i]));
        i = i + 1;
    }
    assert(sort_keys@.map_values(|k: Vec<u8>| k@) =~= eps@.map_values(sk));
    let order = sort_indices(&sort_keys);
    let ghost ord = sorted_order(eps@.len(), eps@.map_values(sk));
    proof {
        lemma_sorted_order_len(eps@.len(), eps@.map_values(sk));
    }
    push_be32(out, eps.len() as u32);
    let ghost mid = out@;
    let mut j: usize = 0;
    while j < order.len()
        invariant
            j <= order@.len(),
            order@.len() == eps@.len(),
            ord.len() == eps@.len(),
            forall|t: int| 0 <= t < order@.len() ==> order@[t] as int == ord[t],
            forall|t: int| 0 <= t < order@.len() ==> #[trigger] order@[t] < eps@.len(),
            out@ == mid + concat_in_order(eps@, ord.take(j as int), f),
            f == (|x: IdentityEndpoint| endpoint_bytes(x)),
        decreases order@.len() - j,
    {
        let ghost before = out@;
        let idx = order[j];
        proof {
            lemma_concat_push(eps@, ord, j as int, f);
            assert(idx as int == ord[j as int]);
            assert(f(eps@[idx as int]) == endpoint_bytes(eps@[idx as int]));
        }
        push_endpoint(out, &eps[idx]);
        j = j + 1;
        assert(out@ =~= mid + concat_in_order(eps@, ord.take(j as int), f));
    }
    assert(ord.take(ord.len() as int) =~= ord);
    assert(out@ =~= start + canonical_list(eps@, sk, f));
}

fn push_capabilities(out: &mut Vec<u8>, caps: &Vec<String>)
    ensures
        final(out)@ == old(out)@ + canonical_list(caps@, |c: String| capability_sort_key(c), |c: String| capability_bytes(c)),
{
    let ghost start = out@;
    let ghost sk = |c: String| capability_sort_key(c);
    let ghost f = |c: String| capability_bytes(c);
    let mut sort_keys: Vec<Vec<u8>> = Vec::new();
    let mut i: usize = 0;
    while i < caps.len()
        invariant
            i <= caps@.len(),
            sort_keys@.len() == i,
            forall|j: int| 0 <= j < i ==> (#[trigger] sort_keys@[j])@ == capability_sort_key(caps@[j]),
        decreases caps@.len() - i,
    {
        sort_keys.push(crate::wire::copy_bytes(caps[i].as_str().as_bytes()));
        i = i + 1;
    }
    assert(sort_keys@.map_values(|k: Vec<u8>| k@) =~= caps@.map_values(sk));
    let order = sort_indices(&sort_keys);
    let ghost ord = sorted_order(caps@.len(), caps@.map_values(sk));
    proof {
        lemma_sorted_order_len(caps@.len(), caps@.map_values(sk));
    }
    push_be32(out, caps.len() as u32);
    let ghost mid = out@;
    let mut j: usize = 0;
    while j < order.len()
        invariant
            j <= order@.len(),
            order@.len() == caps@.len(),
            ord.len() == caps@.len(),
            forall|t: int| 0 <= t < order@.len() ==> order@[t] as int == ord[t],
            forall|t: int| 0 <= t < order@.len() ==> #[trigger] order@[t] < caps@.len(),
            out@ == mid + concat_in_order(caps@, ord.take(j as int), f),
            f == (|x: String| capability_bytes(x)),
        decreases order@.len() - j,
    {
        let ghost before = out@;
        let idx = order[j];
        proof {
            lemma_concat_push(caps@, ord, j as int, f);
            assert(idx as int == ord[j as int]);
            assert(f(caps@[idx as int]) == capability_bytes(caps@[idx as int]));
        }
        push_len_prefixed(out, caps[idx].as_str().as_bytes());
        j = j + 1;
        assert(out@ =~= mid + concat_in_order(caps@, ord.take(j as int), f));
    }
    assert(ord.take(ord.len() as int) =~= ord);
    assert(out@ =~= start + canonical_list(caps@, sk, f));
}

fn push_signatures(out: &mut Vec<u8>, sigs: &Vec<RecordSignature>)
    ensures
        final(out)@ == old(out)@ + canonical_list(sigs@, |s: RecordSignature| signature_sort_key(s), |s: RecordSignature| signature_bytes(s)),
{
    let ghost start = out@;
    let ghost sk = |s: RecordSignature| signature_sort_key(s);
    let ghost f = |s: RecordSignature| signature_bytes(s);
    let mut sort_keys: Vec<Vec<u8>> = Vec::new();
    let mut i: usize = 0;
    while i < sigs.len()
        invariant
            i <= sigs@.len(),
            sort_keys@.len() == i,
            forall|j: int| 0 <= j < i ==> (#[trigger] sort_keys@[j])@ == signature_sort_key(sigs@[j]),
        decreases sigs@.len() - i,
    {
        sort_keys.push(signature_sort_key_of(&sigs[i]));
        i = i + 1;
    }
    assert(sort_keys@.map_values(|k: Vec<u8>| k@) =~= sigs@.map_values(sk));
    let order = sort_indices(&sort_keys);
    let ghost ord = sorted_order(sigs@.len(), sigs@.map_values(sk));
    proof {
        lemma_sorted_order_len(sigs@.len(), sigs@.map_values(sk));
    }
    push_be32(out, sigs.len() as u32);
    let ghost mid = out@;
    let mut j: usize = 0;
    while j < order.len()
        invariant
            j <= order@.len(),
            order@.len() == sigs@.len(),
            ord.len() == sigs@.len(),
            forall|t: int| 0 <= t < order@.len() ==> order@[t] as int == ord[t],
            forall|t: int| 0 <= t < order@.len() ==> #[trigger] order@[t] < sigs@.len(),
            out@ == mid + concat_in_order(sigs@, ord.take(j as int), f),
            f == (|x: RecordSignature| signature_bytes(x)),
        decreases order@.len() - j,
    {
        let ghost before = out@;
        let idx = order[j];
        proof {
            lemma_concat_push(sigs@, ord, j as int, f);
            assert(idx as int == ord[j as int]);
            assert(f(sigs@[idx as int]) == signature_bytes(sigs@[idx as int]));
        }
        push_signature(out, &sigs[idx]);
        j = j + 1;
        assert(out@ =~= mid + concat_in_order(sigs@, ord.take(j as int), f));
    }
    assert(ord.take(ord.len() as int) =~= ord);
    assert(out@ =~= start + canonical_list(sigs@, sk, f));
}

fn push_status(out: &mut Vec<u8>, status: &RecordStatus)
    ensures
        final(out)@ == old(out)@ + status_bytes(*status),
{
    let ghost start = out@;
    match status {
        RecordStatus::Active => {
            out.push(0u8);
        },
        RecordStatus::Revoked { revoked_at, reason } => {
            out.push(1u8);
            push_be64(out, *revoked_at);
            push_len_prefixed(out, reason.as_str().as_bytes());
        },
    }
    assert(out@ =~= start + status_bytes(*status));
}

impl IdentityRecord {
    /// The canonical payload that record signatures cover.
    pub fn canonical_payload(&self) -> (res: Result<Vec<u8>>)
        ensures
            res is Ok <==> record_body_ok(*self),
            res matches Ok(v) ==> v@ == canonical_payload_spec(*self),
            res matches Err(e) ==> e is InvalidRecord,
    {
        self.validate_structure_without_signatures()?;
        let mut out: Vec<u8> = Vec::new();
        push_bytes(&mut out, RECORD_DOMAIN.as_bytes());
        push_be16(&mut out, self.version);
        push_bytes(&mut out, self.subject.0.as_slice());
        push_len_prefixed(&mut out, self.signature_profile.as_str().as_bytes());
        push_be64(&mut out, self.sequence);
        push_be64(&mut out, self.issued_at);
        push_be64(&mut out, self.expires_at);
        push_opt_hash(&mut out, &self.previous_record);
        push_status(&mut out, &self.status);
        push_keys(&mut out, &self.keys);
        push_endpoints(&mut out, &self.endpoints);
        push_capabilities(&mut out, &self.capabilities);
        assert(out@ =~= canonical_payload_spec(*self));
        Ok(out)
    }

    /// The record hash: SHA-256 over the domain, the length-prefixed
    /// canonical payload and the signatures in canonical order.
    pub fn record_hash(&self) -> (res: Result<RecordHash>)
        ensures
            res is Ok <==> record_ok(*self),
            res matches Ok(h) ==> h@ == record_hash_spec(*self),
            res matches Err(e) ==> e is InvalidRecord,
    {
        self.validate_structure()?;
        let payload = self.canonical_payload()?;
        let mut input: Vec<u8> = Vec::new();
        push_bytes(&mut input, RECORD_DOMAIN.as_bytes());
        push_len_prefixed(&mut input, payload.as_slice());
        push_signatures(&mut input, &self.signatures);
        assert(input@ =~= record_hash_input(*self));
        Ok(Hash32(sha256(input.as_slice())))
    }
}

} // verus!
