//! Structural validation of identity records.

use vstd::prelude::*;
use super::rules::{
    derive_identity_id, derive_key_id, endpoint_ok, identity_id_of, key_id_of, key_material_ok,
    strings_distinct, text_ok, token_ok, validate_endpoint, validate_key_material, validate_text,
    validate_token, validate_tokens, distinct_strings,
};
use super::types::{
    invalid, opt_hash_view, same_opt_hash, IdentityEndpoint, IdentityKey, IdentityRecord, KeyRole,
    RecordSignature, RecordStatus, Result, IDENTITY_RECORD_VERSION, MAX_ALGORITHM_BYTES,
    MAX_CAPABILITIES, MAX_ENDPOINTS, MAX_KEYS, MAX_PUBLIC_KEY_BYTES, MAX_RECORD_LIFETIME_SECS,
    MAX_STRING_BYTES,
};

verus! {

/// A key whose material, id, validity window and supersession link are consistent.
pub open spec fn key_entry_ok(k: IdentityKey) -> bool {
    &&& key_material_ok(k.algorithm@, k.public_key@.len())
    &&& k.key_id@ == key_id_of(k.role, k.algorithm@, k.public_key@)
    &&& k.not_before <= k.not_after
    &&& opt_hash_view(k.previous_key_id) != Some(k.key_id@)
}

/// No two keys share a key id.
pub open spec fn distinct_key_ids(keys: Seq<IdentityKey>) -> bool {
    forall|i: int, j: int| 0 <= i < j < keys.len() ==> (#[trigger] keys[i]).key_id@ != (#[trigger] keys[j]).key_id@
}

/// Number of root signing keys.
pub open spec fn root_count(keys: Seq<IdentityKey>) -> nat
    decreases keys.len(),
{
    if keys.len() == 0 {
        0
    } else {
        root_count(keys.drop_last()) + if keys.last().role is RootSigning { 1nat } else { 0nat }
    }
}

/// The record's subject is the identity id of its root signing key.
pub open spec fn subject_bound(r: IdentityRecord) -> bool {
    forall|i: int| 0 <= i < r.keys@.len() && (#[trigger] r.keys@[i]).role is RootSigning
        ==> r.subject@ == identity_id_of(r.keys@[i].public_key@)
}

/// Two endpoints are the same (transport, address, priority) triple.
pub open spec fn same_endpoint(a: IdentityEndpoint, b: IdentityEndpoint) -> bool {
    a.transport@ == b.transport@ && a.address@ == b.address@ && a.priority == b.priority
}

/// No endpoint occurs twice.
pub open spec fn distinct_endpoints(e: Seq<IdentityEndpoint>) -> bool {
    forall|i: int, j: int| 0 <= i < j < e.len() ==> !same_endpoint(#[trigger] e[i], #[trigger] e[j])
}

/// A revocation lies inside the record lifetime and carries a reason.
pub open spec fn status_ok(r: IdentityRecord) -> bool {
    match r.status {
        RecordStatus::Active => true,
        RecordStatus::Revoked { revoked_at, reason } => r.issued_at <= revoked_at <= r.expires_at
            && text_ok(reason@, MAX_STRING_BYTES as nat),
    }
}

/// Every rule of a record except those on its signatures.
pub open spec fn record_body_ok(r: IdentityRecord) -> bool {
    &&& r.version == IDENTITY_RECORD_VERSION
    &&& r.sequence != 0
    &&& !(r.sequence == 1 && r.previous_record is Some)
    &&& !(r.sequence > 1 && r.previous_record is None)
    &&& r.issued_at < r.expires_at
    &&& r.expires_at - r.issued_at <= MAX_RECORD_LIFETIME_SECS
    &&& token_ok(r.signature_profile@, MAX_ALGORITHM_BYTES as nat)
    &&& 1 <= r.keys@.len() <= MAX_KEYS
    &&& forall|i: int| 0 <= i < r.keys@.len() ==> key_entry_ok(#[trigger] r.keys@[i])
    &&& distinct_key_ids(r.keys@)
    &&& root_count(r.keys@) == 1
    &&& subject_bound(r)
    &&& r.endpoints@.len() <= MAX_ENDPOINTS
    &&& forall|i: int| 0 <= i < r.endpoints@.len() ==> endpoint_ok(#[trigger] r.endpoints@[i])
    &&& distinct_endpoints(r.endpoints@)
    &&& r.capabilities@.len() <= MAX_CAPABILITIES
    &&& forall|i: int| 0 <= i < r.capabilities@.len() ==> token_ok(#[trigger] r.capabilities@[i]@, MAX_STRING_BYTES as nat)
    &&& distinct_strings(r.capabilities@)
    &&& status_ok(r)
}

/// A signature names a key of the record that may sign records, with the
/// same algorithm, and has a bounded size.
pub open spec fn signature_entry_ok(keys: Seq<IdentityKey>, s: RecordSignature) -> bool {
    &&& 0 < s.signature@.len() <= MAX_PUBLIC_KEY_BYTES
    &&& token_ok(s.algorithm@, MAX_ALGORITHM_BYTES as nat)
    &&& exists|i: int| 0 <= i < keys.len() && (#[trigger] keys[i]).key_id@ == s.key_id@
        && keys[i].algorithm@ == s.algorithm@
        && (keys[i].role is RootSigning || keys[i].role is RecoverySigning)
}

/// No (key id, algorithm) pair signs twice.
pub open spec fn distinct_signatures(s: Seq<RecordSignature>) -> bool {
    forall|i: int, j: int| 0 <= i < j < s.len() ==> !((#[trigger] s[i]).key_id@ == (#[trigger] s[j]).key_id@
        && s[i].algorithm@ == s[j].algorithm@)
}

/// Some signature is made by the root signing key.
pub open spec fn has_root_signature(r: IdentityRecord) -> bool {
    exists|j: int, i: int| 0 <= j < r.signatures@.len() && 0 <= i < r.keys@.len()
        && (#[trigger] r.signatures@[j]).key_id@ == (#[trigger] r.keys@[i]).key_id@
        && r.keys@[i].role is RootSigning
}

/// The signature rules of a record.
pub open spec fn record_signatures_ok(r: IdentityRecord) -> bool {
    &&& r.signatures@.len() > 0
    &&& forall|j: int| 0 <= j < r.signatures@.len() ==> signature_entry_ok(r.keys@, #[trigger] r.signatures@[j])
    &&& distinct_signatures(r.signatures@)
    &&& has_root_signature(r)
}

/// A structurally valid record.
pub open spec fn record_ok(r: IdentityRecord) -> bool {
    record_body_ok(r) && record_signatures_ok(r)
}

proof fn lemma_root_count_take(keys: Seq<IdentityKey>, i: int)
    requires
        0 <= i < keys.len(),
    ensures
        root_count(keys.take(i + 1)) == root_count(keys.take(i)) + if keys[i].role is RootSigning { 1nat } else { 0nat },
{
    assert(keys.take(i + 1).drop_last() =~= keys.take(i));
}

proof fn lemma_root_count_monotone(keys: Seq<IdentityKey>, i: int, j: int)
    requires
        0 <= i <= j <= keys.len(),
    ensures
        root_count(keys.take(i)) <= root_count(keys.take(j)),
    decreases j - i,
{
    if i < j {
        lemma_root_count_take(keys, j - 1);
        lemma_root_count_monotone(keys, i, j - 1);
    }
}

/// With exactly one root key, any two root keys are the same key.
pub proof fn lemma_single_root(keys: Seq<IdentityKey>, a: int, b: int)
    requires
        root_count(keys) == 1,
        0 <= a < keys.len(),
        0 <= b < keys.len(),
        keys[a].role is RootSigning,
        keys[b].role is RootSigning,
    ensures
        a == b,
{
    if a != b {
        let (lo, hi) = if a < b { (a, b) } else { (b, a) };
        lemma_root_count_take(keys, lo);
        lemma_root_count_monotone(keys, lo + 1, hi);
        lemma_root_count_take(keys, hi);
        lemma_root_count_monotone(keys, hi + 1, keys.len() as int);
        assert(keys.take(keys.len() as int) =~= keys);
    }
}

/// A root key exists when the root count is positive.
pub proof fn lemma_root_exists(keys: Seq<IdentityKey>)
    requires
        root_count(keys) > 0,
    ensures
        exists|i: int| 0 <= i < keys.len() && (#[trigger] keys[i]).role is RootSigning,
    decreases keys.len(),
{
    if keys.last().role !is RootSigning {
        lemma_root_exists(keys.drop_last());
        let i = choose|i: int| 0 <= i < keys.drop_last().len() && (#[trigger] keys.drop_last()[i]).role is RootSigning;
        assert(keys[i] == keys.drop_last()[i]);
    } else {
        assert(keys[keys.len() - 1].role is RootSigning);
    }
}

/// Index of the first root signing key, if any.
pub fn find_root(keys: &Vec<IdentityKey>) -> (res: Option<usize>)
    ensures
        res matches Some(i) ==> i < keys@.len() && keys@[i as int].role is RootSigning
            && forall|j: int| 0 <= j < i ==> (#[trigger] keys@[j]).role !is RootSigning,
        res is None ==> forall|j: int| 0 <= j < keys@.len() ==> (#[trigger] keys@[j]).role !is RootSigning,
{
    let mut i: usize = 0;
    while i < keys.len()
        invariant
            i <= keys@.len(),
            forall|j: int| 0 <= j < i ==> (#[trigger] keys@[j]).role !is RootSigning,
        decreases keys@.len() - i,
    {
        if keys[i].role == KeyRole::RootSigning {
            return Some(i);
        }
        i = i + 1;
    }
    None
}

/// Index of the first key with a given id, if any.
pub fn find_key(keys: &Vec<IdentityKey>, key_id: &super::types::Hash32) -> (res: Option<usize>)
    ensures
        res matches Some(i) ==> i < keys@.len() && keys@[i as int].key_id@ == key_id@
            && forall|j: int| 0 <= j < i ==> (#[trigger] keys@[j]).key_id@ != key_id@,
        res is None ==> forall|j: int| 0 <= j < keys@.len() ==> (#[trigger] keys@[j]).key_id@ != key_id@,
{
    let mut i: usize = 0;
    while i < keys.len()
        invariant
            i <= keys@.len(),
            forall|j: int| 0 <= j < i ==> (#[trigger] keys@[j]).key_id@ != key_id@,
        decreases keys@.len() - i,
    {
        if keys[i].key_id.same(key_id) {
            return Some(i);
        }
        i = i + 1;
    }
    None
}

fn validate_key_entry(key: &IdentityKey) -> (res: Result<()>)
    ensures
        res is Ok <==> key_entry_ok(*key),
        res matches Err(e) ==> e is InvalidRecord,
{
    validate_key_material(&key.algorithm, key.public_key.as_slice())?;
    let expected = derive_key_id(key.role, &key.algorithm, key.public_key.as_slice());
    if !key.key_id.same(&expected) {
        return Err(invalid("key id does not match its key material"));
    }
    if key.not_after < key.not_before {
        return Err(invalid("key expiration precedes key activation"));
    }
    if same_opt_hash(&key.previous_key_id, &Some(key.key_id)) {
        return Err(invalid("key cannot supersede itself"));
    }
    Ok(())
}

fn validate_keys(keys: &Vec<IdentityKey>) -> (res: Result<()>)
    ensures
        res is Ok <==> (forall|i: int| 0 <= i < keys@.len() ==> key_entry_ok(#[trigger] keys@[i]))
            && distinct_key_ids(keys@) && root_count(keys@) == 1,
        res matches Err(e) ==> e is InvalidRecord,
{
    let mut roots: usize = 0;
    let mut i: usize = 0;
    while i < keys.len()
        invariant
            i <= keys@.len(),
            roots == root_count(keys@.take(i as int)),
            roots <= i,
            forall|k: int| 0 <= k < i ==> key_entry_ok(#[trigger] keys@[k]),
            forall|a: int, b: int| 0 <= a < b < i ==> (#[trigger] keys@[a]).key_id@ != (#[trigger] keys@[b]).key_id@,
        decreases keys@.len() - i,
    {
        validate_key_entry(&keys[i])?;
        let mut j: usize = 0;
        while j < i
            invariant
                j <= i < keys@.len(),
                forall|a: int| 0 <= a < j ==> (#[trigger] keys@[a]).key_id@ != keys@[i as int].key_id@,
            decreases i - j,
        {
            if keys[j].key_id.same(&keys[i].key_id) {
                return Err(invalid("record contains duplicate key ids"));
            }
            j = j + 1;
        }
        proof {
            lemma_root_count_take(keys@, i as int);
        }
        if keys[i].role == KeyRole::RootSigning {
            roots = roots + 1;
        }
        i = i + 1;
    }
    assert(keys@.take(keys@.len() as int) =~= keys@);
    if roots != 1 {
        return Err(invalid("record must contain exactly one root signing key"));
    }
    Ok(())
}

fn validate_endpoints(endpoints: &Vec<IdentityEndpoint>) -> (res: Result<()>)
    ensures
        res is Ok <==> (forall|i: int| 0 <= i < endpoints@.len() ==> endpoint_ok(#[trigger] endpoints@[i]))
            && distinct_endpoints(endpoints@),
        res matches Err(e) ==> e is InvalidRecord,
{
    let mut i: usize = 0;
    while i < endpoints.len()
        invariant
            i <= endpoints@.len(),
            forall|k: int| 0 <= k < i ==> endpoint_ok(#[trigger] endpoints@[k]),
            forall|a: int, b: int| 0 <= a < b < i ==> !same_endpoint(#[trigger] endpoints@[a], #[trigger] endpoints@[b]),
        decreases endpoints@.len() - i,
    {
        validate_endpoint(&endpoints[i])?;
        let mut j: usize = 0;
        while j < i
            invariant
                j <= i < endpoints@.len(),
                forall|a: int| 0 <= a < j ==> !same_endpoint(#[trigger] endpoints@[a], endpoints@[i as int]),
            decreases i - j,
        {
            let a = &endpoints[j];
            let b = &endpoints[i];
            if a.transport.eq(&b.transport) && a.address.eq(&b.address) && a.priority == b.priority {
                return Err(invalid("record contains duplicate endpoints"));
            }
            j = j + 1;
        }
        i = i + 1;
    }
    Ok(())
}

fn validate_signatures(record: &IdentityRecord) -> (res: Result<()>)
    requires
        distinct_key_ids(record.keys@),
        root_count(record.keys@) == 1,
    ensures
        res is Ok <==> record_signatures_ok(*record),
        res matches Err(e) ==> e is InvalidRecord,
{
    let keys = &record.keys;
    let sigs = &record.signatures;
    if sigs.len() == 0 {
        return Err(invalid("record must contain at least one signature"));
    }
    let root = find_root(keys);
    let mut has_root_sig = false;
    let mut j: usize = 0;
    while j < sigs.len()
        invariant
            keys == &record.keys,
            sigs == &record.signatures,
            j <= sigs@.len(),
            distinct_key_ids(keys@),
            root_count(keys@) == 1,
            root matches Some(r) ==> r < keys@.len() && keys@[r as int].role is RootSigning,
            root is None ==> forall|k: int| 0 <= k < keys@.len() ==> (#[trigger] keys@[k]).role !is RootSigning,
            forall|k: int| 0 <= k < j ==> signature_entry_ok(keys@, #[trigger] sigs@[k]),
            forall|a: int, b: int| 0 <= a < b < j ==> !((#[trigger] sigs@[a]).key_id@ == (#[trigger] sigs@[b]).key_id@
                && sigs@[a].algorithm@ == sigs@[b].algorithm@),
            has_root_sig <==> exists|a: int, i: int| 0 <= a < j && 0 <= i < keys@.len()
                && (#[trigger] sigs@[a]).key_id@ == (#[trigger] keys@[i]).key_id@ && keys@[i].role is RootSigning,
        decreases sigs@.len() - j,
    {
        let sig = &sigs[j];
        if sig.signature.len() == 0 || sig.signature.len() > MAX_PUBLIC_KEY_BYTES {
            return Err(invalid("record signature has an invalid size"));
        }
        validate_token("signature algorithm", sig.algorithm.as_str(), MAX_ALGORITHM_BYTES)?;
        let mut a: usize = 0;
        while a < j
            invariant
                a <= j < sigs@.len(),
                sigs == &record.signatures,
                sig == &sigs@[j as int],
                forall|b: int| 0 <= b < a ==> !((#[trigger] sigs@[b]).key_id@ == sig.key_id@
                    && sigs@[b].algorithm@ == sig.algorithm@),
            decreases j - a,
        {
            if sigs[a].key_id.same(&sig.key_id)
                && crate::error::str_eq(sigs[a].algorithm.as_str(), sig.algorithm.as_str()) {
                assert(sigs@[a as int].key_id@ == sigs@[j as int].key_id@
                    && sigs@[a as int].algorithm@ == sigs@[j as int].algorithm@);
                return Err(invalid("record contains duplicate signatures"));
            }
            a = a + 1;
        }
        let found = find_key(keys, &sig.key_id);
        match found {
            None => {
                return Err(invalid("record signature references an unknown key"));
            }
            Some(k) => {
                let key = &keys[k];
                if !crate::error::str_eq(key.algorithm.as_str(), sig.algorithm.as_str()) || !key.role.accepts_record_signature() {
                    proof {
                        assert forall|i: int| 0 <= i < keys@.len() && (#[trigger] keys@[i]).key_id@ == sig.key_id@
                            implies !(keys@[i].algorithm@ == sig.algorithm@
                                && (keys@[i].role is RootSigning || keys@[i].role is RecoverySigning)) by {
                            if i != k as int {
                                if i < k {
                                } else {
                                    assert(keys@[k as int].key_id@ != keys@[i].key_id@);
                                }
                            }
                        }
                    }
                    return Err(invalid("record signature key is not authorized for record signing"));
                }
                match root {
                    Some(r) => {
                        if sig.key_id.same(&keys[r].key_id) {
                            has_root_sig = true;
                        }
                        proof {
                            if sig.key_id@ != keys@[r as int].key_id@ {
                                assert forall|i: int| 0 <= i < keys@.len() && sig.key_id@ == (#[trigger] keys@[i]).key_id@
                                    implies keys@[i].role !is RootSigning by {
                                    if keys@[i].role is RootSigning {
                                        lemma_single_root(keys@, i, r as int);
                                    }
                                }
                            }
                        }
                    }
                    None => {
                        proof {
                            lemma_root_exists(keys@);
                        }
                    }
                }
            }
        }
        j = j + 1;
    }
    if !has_root_sig {
        return Err(invalid("record must include a signature by the root signing key"));
    }
    Ok(())
}


fn validate_subject_binding(record: &IdentityRecord) -> (res: Result<()>)
    requires
        root_count(record.keys@) == 1,
    ensures
        res is Ok <==> subject_bound(*record),
        res matches Err(e) ==> e is InvalidRecord,
{
    match find_root(&record.keys) {
        None => {
            proof {
                lemma_root_exists(record.keys@);
            }
            Err(invalid("record has no root signing key"))
        },
        Some(r) => {
            let expected = derive_identity_id(record.keys[r].public_key.as_slice());
            if !record.subject.same(&expected) {
                return Err(invalid("record subject is not bound to the root signing key"));
            }
            proof {
                assert forall|i: int| 0 <= i < record.keys@.len() && (#[trigger] record.keys@[i]).role is RootSigning
                    implies record.subject@ == identity_id_of(record.keys@[i].public_key@) by {
                    lemma_single_root(record.keys@, i, r as int);
                }
            }
            Ok(())
        },
    }
}

impl IdentityRecord {
    /// Check every rule of the record except those on its signatures.
    pub fn validate_structure_without_signatures(&self) -> (res: Result<()>)
        ensures
            res is Ok <==> record_body_ok(*self),
            res matches Err(e) ==> e is InvalidRecord,
    {
        if self.version != IDENTITY_RECORD_VERSION {
            return Err(invalid("unsupported record version"));
        }
        if self.sequence == 0 {
            return Err(invalid("record sequence must start at one"));
        }
        if self.sequence == 1 && self.previous_record.is_some() {
            return Err(invalid("initial record cannot reference a previous record"));
        }
        if self.sequence > 1 && self.previous_record.is_none() {
            return Err(invalid("non-initial record must reference a previous record"));
        }
        if self.expires_at <= self.issued_at {
            return Err(invalid("record expiration must be after issuance"));
        }
        if self.expires_at - self.issued_at > MAX_RECORD_LIFETIME_SECS {
            return Err(invalid("record lifetime exceeds the safety limit"));
        }
        validate_token("signature profile", self.signature_profile.as_str(), MAX_ALGORITHM_BYTES)?;
        if self.keys.len() == 0 || self.keys.len() > MAX_KEYS {
            return Err(invalid("record must contain between one and 32 keys"));
        }
        validate_keys(&self.keys)?;
        validate_subject_binding(self)?;
        if self.endpoints.len() > MAX_ENDPOINTS {
            return Err(invalid("record contains more than 32 endpoints"));
        }
        validate_endpoints(&self.endpoints)?;
        if self.capabilities.len() > MAX_CAPABILITIES {
            return Err(invalid("record contains more than 64 capabilities"));
        }
        validate_tokens("capability", &self.capabilities, MAX_STRING_BYTES)?;
        if !strings_distinct(&self.capabilities) {
            return Err(invalid("record contains duplicate capabilities"));
        }
        match &self.status {
            RecordStatus::Active => {},
            RecordStatus::Revoked { revoked_at, reason } => {
                if *revoked_at < self.issued_at || *revoked_at > self.expires_at {
                    return Err(invalid("revocation timestamp is outside the record lifetime"));
                }
                validate_text("revocation reason", reason.as_str(), MAX_STRING_BYTES)?;
            },
        }
        Ok(())
    }

    /// Check every structural rule of the record, signatures included.
    pub fn validate_structure(&self) -> (res: Result<()>)
        ensures
            res is Ok <==> record_ok(*self),
            res matches Err(e) ==> e is InvalidRecord,
    {
        self.validate_structure_without_signatures()?;
        validate_signatures(self)
    }

    /// Check that the subject is the identity id of the root signing key.
    pub fn validate_subject_binding(&self) -> (res: Result<()>)
        requires
            root_count(self.keys@) == 1,
        ensures
            res is Ok <==> subject_bound(*self),
            res matches Err(e) ==> e is InvalidRecord,
    {
        validate_subject_binding(self)
    }
}

} // verus!
