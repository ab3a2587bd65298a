//! Signature and freshness verification of records, and peer-pin derivation.

use vstd::prelude::*;
use crate::error::str_eq;
use super::canonical::canonical_payload_spec;
use super::record::{find_key, find_root, lemma_single_root, record_ok, subject_bound, lemma_root_exists, root_count};
use super::rules::{derive_identity_id, identity_id_of};
use super::types::{
    invalid, IdentityError, IdentityKey, IdentityRecord, KeyRole, PeerPin, RecordSignature,
    RecordStatus, Result, VerificationPolicy, VerificationResult, ALGORITHM_ED25519,
    ALGORITHM_X25519, MAX_CLOCK_SKEW_SECS, PROFILE_ED25519,
};

verus! {

/// Whether `signature` is a valid Ed25519 signature of `message` under
/// `public_key`, as decided by `ring`.
pub uninterp spec fn ed25519_valid(public_key: Seq<u8>, message: Seq<u8>, signature: Seq<u8>) -> bool;

/// Calls `ring::signature::UnparsedPublicKey::<&[u8]>::verify` with the
/// `ED25519` algorithm. The contract claims only that the answer is a function
/// of the three byte strings.
#[verifier::external_body]
pub(crate) fn ed25519_verify(public_key: &[u8], message: &[u8], signature: &[u8]) -> (ok: bool)
    ensures
        ok == ed25519_valid(public_key@, message@, signature@),
{
    ring::signature::UnparsedPublicKey::new(&ring::signature::ED25519, public_key)
        .verify(message, signature)
        .is_ok()
}

/// Why verification refused a record.
#[derive(Debug, Clone, Copy, PartialEq, Eq)]
pub enum VerifyFailure {
    InvalidRecord,
    InvalidSignature,
    UnsupportedAlgorithm,
    NotYetValid,
    Expired,
}

/// An error of the kind a failure names.
pub open spec fn error_matches(e: IdentityError, f: VerifyFailure) -> bool {
    match f {
        VerifyFailure::InvalidRecord => e is InvalidRecord,
        VerifyFailure::InvalidSignature => e is InvalidSignature,
        VerifyFailure::UnsupportedAlgorithm => e is UnsupportedAlgorithm,
        VerifyFailure::NotYetValid => e is NotYetValid,
        VerifyFailure::Expired => e is Expired,
    }
}

/// `a + b`, saturating at `u64::MAX`.
pub open spec fn sat_add(a: u64, b: u64) -> u64 {
    if a + b > u64::MAX { u64::MAX } else { (a + b) as u64 }
}

/// The key of the record a signature names (unique in a valid record).
pub open spec fn signing_key(keys: Seq<IdentityKey>, s: RecordSignature) -> IdentityKey {
    keys[choose|i: int| 0 <= i < keys.len() && (#[trigger] keys[i]).key_id@ == s.key_id@]
}

/// The check of one signature: key validity at issuance and now, then the
/// Ed25519 signature itself.
pub open spec fn signature_outcome(k: IdentityKey, s: RecordSignature, r: IdentityRecord,
    p: VerificationPolicy, payload: Seq<u8>) -> Option<VerifyFailure>
{
    if k.not_before > r.issued_at || k.not_after < r.issued_at {
        Some(VerifyFailure::InvalidRecord)
    } else if k.not_before > sat_add(p.now_secs, p.clock_skew_secs) {
        Some(VerifyFailure::NotYetValid)
    } else if sat_add(k.not_after, p.clock_skew_secs) < p.now_secs {
        Some(VerifyFailure::Expired)
    } else if s.algorithm@ == ALGORITHM_ED25519@ {
        if k.public_key@.len() != 32 || s.signature@.len() != 64 {
            Some(VerifyFailure::InvalidRecord)
        } else if !ed25519_valid(k.public_key@, payload, s.signature@) {
            Some(VerifyFailure::InvalidSignature)
        } else {
            None
        }
    } else {
        Some(VerifyFailure::UnsupportedAlgorithm)
    }
}

/// The first failure among the first `n` signatures, in listed order.
pub open spec fn signatures_outcome(r: IdentityRecord, p: VerificationPolicy, payload: Seq<u8>, n: nat) -> Option<VerifyFailure>
    decreases n,
{
    if n == 0 {
        None
    } else {
        match signatures_outcome(r, p, payload, (n - 1) as nat) {
            Some(f) => Some(f),
            None => signature_outcome(signing_key(r.keys@, r.signatures@[n - 1]), r.signatures@[n - 1], r, p, payload),
        }
    }
}

/// The verdict of `verify`: `None` when the record is accepted.
#[verifier::opaque]
pub open spec fn verify_outcome(r: IdentityRecord, p: VerificationPolicy) -> Option<VerifyFailure> {
    if p.clock_skew_secs > MAX_CLOCK_SKEW_SECS {
        Some(VerifyFailure::InvalidRecord)
    } else if !record_ok(r) {
        Some(VerifyFailure::InvalidRecord)
    } else if p.expected_subject matches Some(x) && x@ != r.subject@ {
        Some(VerifyFailure::InvalidRecord)
    } else if r.issued_at > sat_add(p.now_secs, p.clock_skew_secs) {
        Some(VerifyFailure::NotYetValid)
    } else if sat_add(r.expires_at, p.clock_skew_secs) < p.now_secs {
        Some(VerifyFailure::Expired)
    } else if r.signature_profile@ != PROFILE_ED25519@ {
        Some(VerifyFailure::UnsupportedAlgorithm)
    } else if signatures_outcome(r, p, canonical_payload_spec(r), r.signatures@.len()) is Some {
        signatures_outcome(r, p, canonical_payload_spec(r), r.signatures@.len())
    } else if p.require_pqc_signature {
        Some(VerifyFailure::UnsupportedAlgorithm)
    } else {
        None
    }
}

/// A key valid both when the record was issued and at the policy's time.
pub open spec fn key_valid_at(k: IdentityKey, issued_at: u64, p: VerificationPolicy) -> bool {
    k.not_before <= issued_at && k.not_after >= issued_at && k.not_before <= p.now_secs
        && k.not_after >= p.now_secs
}

/// A current X25519 identity-binding key.
pub open spec fn binding_candidate(k: IdentityKey, issued_at: u64, p: VerificationPolicy) -> bool {
    k.role is IdentityBinding && k.algorithm@ == ALGORITHM_X25519@ && key_valid_at(k, issued_at, p)
}

/// A current Ed25519 operational signing key.
pub open spec fn operational_candidate(k: IdentityKey, issued_at: u64, p: VerificationPolicy) -> bool {
    k.role is OperationalSigning && k.algorithm@ == ALGORITHM_ED25519@ && key_valid_at(k, issued_at, p)
}

/// A current Ed25519 root signing key.
pub open spec fn root_candidate(k: IdentityKey, issued_at: u64, p: VerificationPolicy) -> bool {
    k.role is RootSigning && k.algorithm@ == ALGORITHM_ED25519@ && key_valid_at(k, issued_at, p)
}

/// Number of current identity-binding keys among the keys.
pub open spec fn binding_count(keys: Seq<IdentityKey>, issued_at: u64, p: VerificationPolicy) -> nat
    decreases keys.len(),
{
    if keys.len() == 0 {
        0
    } else {
        binding_count(keys.drop_last(), issued_at, p)
            + if binding_candidate(keys.last(), issued_at, p) { 1nat } else { 0nat }
    }
}

/// Whether a peer pin can be derived, and which one.
pub open spec fn pin_ok(r: IdentityRecord, p: VerificationPolicy) -> bool {
    &&& verify_outcome(r, p) is None
    &&& r.status is Active
    &&& binding_count(r.keys@, r.issued_at, p) == 1
    &&& forall|i: int| 0 <= i < r.keys@.len() ==> !operational_candidate(#[trigger] r.keys@[i], r.issued_at, p)
    &&& exists|i: int| 0 <= i < r.keys@.len() && root_candidate(#[trigger] r.keys@[i], r.issued_at, p)
}

/// Whether a key is valid both at issuance and at the policy's time.
pub fn key_valid_for_record_and_policy(key: &IdentityKey, issued_at: u64, policy: VerificationPolicy) -> (b: bool)
    ensures
        b == key_valid_at(*key, issued_at, policy),
{
    key.not_before <= issued_at && key.not_after >= issued_at && key.not_before <= policy.now_secs
        && key.not_after >= policy.now_secs
}

fn failure_error(f: VerifyFailure) -> (e: IdentityError)
    ensures
        error_matches(e, f),
{
    match f {
        VerifyFailure::InvalidRecord => invalid("record failed verification"),
        VerifyFailure::InvalidSignature => IdentityError::InvalidSignature,
        VerifyFailure::UnsupportedAlgorithm => IdentityError::UnsupportedAlgorithm(crate::error::msg("unsupported identity signature algorithm")),
        VerifyFailure::NotYetValid => IdentityError::NotYetValid,
        VerifyFailure::Expired => IdentityError::Expired,
    }
}

proof fn lemma_signing_key(keys: Seq<IdentityKey>, s: RecordSignature, k: int)
    requires
        super::record::distinct_key_ids(keys),
        0 <= k < keys.len(),
        keys[k].key_id@ == s.key_id@,
    ensures
        signing_key(keys, s) == keys[k],
{
    let c = choose|i: int| 0 <= i < keys.len() && (#[trigger] keys[i]).key_id@ == s.key_id@;
    if c != k {
        if c < k {
            assert(keys[c].key_id@ != keys[k].key_id@);
        } else {
            assert(keys[k].key_id@ != keys[c].key_id@);
        }
    }
}

fn check_signature(key: &IdentityKey, sig: &RecordSignature, issued_at: u64, policy: VerificationPolicy,
    payload: &[u8], horizon: u64) -> (res: Option<VerifyFailure>)
    requires
        horizon == sat_add(policy.now_secs, policy.clock_skew_secs),
    ensures
        forall|r: IdentityRecord| r.issued_at == issued_at ==> res == signature_outcome(*key, *sig, r, policy, payload@),
{
    if key.not_before > issued_at || key.not_after < issued_at {
        return Some(VerifyFailure::InvalidRecord);
    }
    if key.not_before > horizon {
        return Some(VerifyFailure::NotYetValid);
    }
    if key.not_after.saturating_add(policy.clock_skew_secs) < policy.now_secs {
        return Some(VerifyFailure::Expired);
    }
    if str_eq(sig.algorithm.as_str(), ALGORITHM_ED25519) {
        if key.public_key.len() != 32 || sig.signature.len() != 64 {
            return Some(VerifyFailure::InvalidRecord);
        }
        if !ed25519_verify(key.public_key.as_slice(), payload, sig.signature.as_slice()) {
            return Some(VerifyFailure::InvalidSignature);
        }
        None
    } else {
        Some(VerifyFailure::UnsupportedAlgorithm)
    }
}

fn verify_signatures(record: &IdentityRecord, policy: VerificationPolicy, payload: &[u8], horizon: u64) -> (res: Result<()>)
    requires
        horizon == sat_add(policy.now_secs, policy.clock_skew_secs),
        super::record::distinct_key_ids(record.keys@),
        forall|t: int| 0 <= t < record.signatures@.len() ==> super::record::signature_entry_ok(record.keys@, #[trigger] record.signatures@[t]),
    ensures
        res is Ok <==> signatures_outcome(*record, policy, payload@, record.signatures@.len()) is None,
        res matches Err(e) ==> (signatures_outcome(*record, policy, payload@, record.signatures@.len()) matches Some(f)
            && error_matches(e, f)),
{
    let mut j: usize = 0;
    while j < record.signatures.len()
        invariant
            j <= record.signatures@.len(),
            super::record::distinct_key_ids(record.keys@),
            forall|t: int| 0 <= t < record.signatures@.len() ==> super::record::signature_entry_ok(record.keys@, #[trigger] record.signatures@[t]),
            horizon == sat_add(policy.now_secs, policy.clock_skew_secs),
            signatures_outcome(*record, policy, payload@, j as nat) is None,
        decreases record.signatures@.len() - j,
    {
        let sig = &record.signatures[j];
        let k = match find_key(&record.keys, &sig.key_id) {
            Some(k) => k,
            None => {
                proof {
                    assert(super::record::signature_entry_ok(record.keys@, record.signatures@[j as int]));
                    let i = choose|i: int| 0 <= i < record.keys@.len() && (#[trigger] record.keys@[i]).key_id@ == sig.key_id@
                        && record.keys@[i].algorithm@ == sig.algorithm@
                        && (record.keys@[i].role is RootSigning || record.keys@[i].role is RecoverySigning);
                    assert(record.keys@[i].key_id@ != sig.key_id@);
                }
                return Err(invalid("record signature references an unknown key"));
            },
        };
        let key = &record.keys[k];
        proof {
            lemma_signing_key(record.keys@, *sig, k as int);
        }
        let outcome = check_signature(key, sig, record.issued_at, policy, payload, horizon);
        assert(signatures_outcome(*record, policy, payload@, (j + 1) as nat)
            == signature_outcome(*key, *sig, *record, policy, payload@));
        match outcome {
            Some(f) => {
                proof {
                    lemma_outcome_sticky(*record, policy, payload@, (j + 1) as nat, record.signatures@.len());
                }
                return Err(failure_error(f));
            },
            None => {},
        }
        j = j + 1;
    }
    Ok(())
}

proof fn lemma_outcome_sticky(r: IdentityRecord, p: VerificationPolicy, payload: Seq<u8>, a: nat, b: nat)
    requires
        a <= b,
        signatures_outcome(r, p, payload, a) is Some,
    ensures
        signatures_outcome(r, p, payload, b) == signatures_outcome(r, p, payload, a),
    decreases b - a,
{
    if a < b {
        lemma_outcome_sticky(r, p, payload, a, (b - 1) as nat);
    }
}

impl IdentityRecord {
    /// Verify structure, subject binding, freshness and signatures.
    pub fn verify(&self, policy: VerificationPolicy) -> (res: Result<VerificationResult>)
        ensures
            res is Ok <==> verify_outcome(*self, policy) is None,
            res matches Ok(v) ==> v.subject == self.subject && !v.pqc_authenticated,
            res is Ok ==> (policy.expected_subject matches Some(x) ==> x@ == self.subject@),
            res matches Err(e) ==> (verify_outcome(*self, policy) matches Some(f) && error_matches(e, f)),
    {
        reveal(verify_outcome);
        if policy.clock_skew_secs > MAX_CLOCK_SKEW_SECS {
            return Err(invalid("verification clock skew exceeds the safety limit"));
        }
        self.validate_structure()?;
        match find_root(&self.keys) {
            None => {
                proof { lemma_root_exists(self.keys@); }
                return Err(invalid("record has no root signing key"));
            },
            Some(r) => {
                let expected = derive_identity_id(self.keys[r].public_key.as_slice());
                if !self.subject.same(&expected) {
                    return Err(invalid("record subject is not bound to the root signing key"));
                }
            },
        }
        match &policy.expected_subject {
            Some(expected) => {
                if !expected.same(&self.subject) {
                    return Err(invalid("record subject does not match the expected identity"));
                }
            },
            None => {},
        }
        let horizon = policy.now_secs.saturating_add(policy.clock_skew_secs);
        if self.issued_at > horizon {
            return Err(IdentityError::NotYetValid);
        }
        if self.expires_at.saturating_add(policy.clock_skew_secs) < policy.now_secs {
            return Err(IdentityError::Expired);
        }
        if !str_eq(self.signature_profile.as_str(), PROFILE_ED25519) {
            return Err(IdentityError::UnsupportedAlgorithm(crate::error::msg("unsupported identity signature profile")));
        }
        let payload = match self.canonical_payload() {
            Ok(p) => p,
            Err(e) => { return Err(e); },
        };
        let ghost pl = canonical_payload_spec(*self);
        assert(record_ok(*self));
        verify_signatures(self, policy, payload.as_slice(), horizon)?;
        if policy.require_pqc_signature {
            return Err(IdentityError::UnsupportedAlgorithm(crate::error::msg("a post-quantum signature is required by policy")));
        }
        Ok(VerificationResult { subject: self.subject, pqc_authenticated: false })
    }
}


/// Copy a 32-byte slice into an array.
pub fn to_array32(v: &[u8]) -> (a: [u8; 32])
    requires
        v@.len() == 32,
    ensures
        a@ == v@,
{
    let mut a = [0u8; 32];
    let mut i: usize = 0;
    while i < 32
        invariant
            i <= 32,
            v@.len() == 32,
            forall|j: int| 0 <= j < i ==> a@[j] == v@[j],
        decreases 32 - i,
    {
        a[i] = v[i];
        i = i + 1;
    }
    assert(a@ =~= v@);
    a
}

proof fn lemma_binding_count_take(keys: Seq<IdentityKey>, i: int, issued_at: u64, p: VerificationPolicy)
    requires
        0 <= i < keys.len(),
    ensures
        binding_count(keys.take(i + 1), issued_at, p) == binding_count(keys.take(i), issued_at, p)
            + if binding_candidate(keys[i], issued_at, p) { 1nat } else { 0nat },
{
    assert(keys.take(i + 1).drop_last() =~= keys.take(i));
}

proof fn lemma_binding_count_monotone(keys: Seq<IdentityKey>, i: int, j: int, issued_at: u64, p: VerificationPolicy)
    requires
        0 <= i <= j <= keys.len(),
    ensures
        binding_count(keys.take(i), issued_at, p) <= binding_count(keys.take(j), issued_at, p),
    decreases j - i,
{
    if i < j {
        lemma_binding_count_take(keys, j - 1, issued_at, p);
        lemma_binding_count_monotone(keys, i, j - 1, issued_at, p);
    }
}

proof fn lemma_single_binding(keys: Seq<IdentityKey>, a: int, b: int, issued_at: u64, p: VerificationPolicy)
    requires
        binding_count(keys, issued_at, p) == 1,
        0 <= a < keys.len(),
        0 <= b < keys.len(),
        binding_candidate(keys[a], issued_at, p),
        binding_candidate(keys[b], issued_at, p),
    ensures
        a == b,
{
    if a != b {
        let (lo, hi) = if a < b { (a, b) } else { (b, a) };
        lemma_binding_count_take(keys, lo, issued_at, p);
        lemma_binding_count_monotone(keys, lo + 1, hi, issued_at, p);
        lemma_binding_count_take(keys, hi, issued_at, p);
        lemma_binding_count_monotone(keys, hi + 1, keys.len() as int, issued_at, p);
        assert(keys.take(keys.len() as int) =~= keys);
    }
}

/// An accepted record is structurally valid.
pub proof fn lemma_verified_record_ok(r: IdentityRecord, p: VerificationPolicy)
    requires
        verify_outcome(r, p) is None,
    ensures
        record_ok(r),
{
    reveal(verify_outcome);
}

/// A record is accepted only by a policy that expects its subject, or that
/// expects no subject in particular: a record of another identity is refused.
pub proof fn lemma_verified_record_matches_expected_subject(r: IdentityRecord, p: VerificationPolicy)
    requires
        verify_outcome(r, p) is None,
    ensures
        p.expected_subject matches Some(x) ==> x@ == r.subject@,
{
    reveal(verify_outcome);
}

impl IdentityRecord {
    /// Derive the peer pin of a verified, active record: its unique current
    /// X25519 identity binding and its current Ed25519 root signing key.
    /// A current operational signing key is refused, since the handshake
    /// signs with the root key.
    pub fn to_peer_pin(&self, policy: VerificationPolicy) -> (res: Result<PeerPin>)
        ensures
            res is Ok <==> pin_ok(*self, policy),
            res matches Ok(pin) ==> (forall|i: int| 0 <= i < self.keys@.len()
                && binding_candidate(#[trigger] self.keys@[i], self.issued_at, policy)
                ==> pin.identity_public@ == self.keys@[i].public_key@),
            res matches Ok(pin) ==> (forall|i: int| 0 <= i < self.keys@.len()
                && root_candidate(#[trigger] self.keys@[i], self.issued_at, policy)
                ==> pin.signing_public@ == self.keys@[i].public_key@),
            res matches Err(e) ==> (verify_outcome(*self, policy) matches Some(f) ==> error_matches(e, f)),
            res matches Err(e) ==> (verify_outcome(*self, policy) is None ==> e is InvalidRecord),
    {
        self.verify(policy)?;
        match &self.status {
            RecordStatus::Active => {},
            RecordStatus::Revoked { .. } => {
                return Err(invalid("revoked identity cannot produce a peer pin"));
            },
        }
        let keys = &self.keys;
        let mut bindings: usize = 0;
        let mut binding_index: usize = 0;
        let mut i: usize = 0;
        while i < keys.len()
            invariant
                keys == &self.keys,
                verify_outcome(*self, policy) is None,
                i <= keys@.len(),
                bindings == binding_count(keys@.take(i as int), self.issued_at, policy),
                bindings <= i,
                bindings > 0 ==> binding_index < i && binding_candidate(keys@[binding_index as int], self.issued_at, policy),
                forall|j: int| 0 <= j < i ==> !operational_candidate(#[trigger] keys@[j], self.issued_at, policy),
            decreases keys@.len() - i,
        {
            let key = &keys[i];
            proof {
                lemma_binding_count_take(keys@, i as int, self.issued_at, policy);
            }
            let valid = key_valid_for_record_and_policy(key, self.issued_at, policy);
            if key.role == KeyRole::IdentityBinding && str_eq(key.algorithm.as_str(), ALGORITHM_X25519) && valid {
                bindings = bindings + 1;
                binding_index = i;
            }
            if key.role == KeyRole::OperationalSigning && str_eq(key.algorithm.as_str(), ALGORITHM_ED25519) && valid {
                return Err(invalid("record contains a current operational signing key that shph-core cannot emit in a handshake; pin generation requires the root signing key"));
            }
            i = i + 1;
        }
        assert(keys@.take(keys@.len() as int) =~= keys@);
        if bindings != 1 {
            return Err(invalid("record has no unique currently valid X25519 identity binding"));
        }
        let mut r: usize = 0;
        while r < keys.len()
            invariant
                keys == &self.keys,
                r <= keys@.len(),
                forall|j: int| 0 <= j < r ==> !root_candidate(#[trigger] keys@[j], self.issued_at, policy),
            ensures
                r <= keys@.len(),
                r < keys@.len() ==> root_candidate(keys@[r as int], self.issued_at, policy),
                forall|j: int| 0 <= j < r ==> !root_candidate(#[trigger] keys@[j], self.issued_at, policy),
            decreases keys@.len() - r,
        {
            let key = &keys[r];
            if key.role == KeyRole::RootSigning && str_eq(key.algorithm.as_str(), ALGORITHM_ED25519)
                && key_valid_for_record_and_policy(key, self.issued_at, policy) {
                break;
            }
            r = r + 1;
        }
        if r == keys.len() {
            return Err(invalid("record has no currently valid Ed25519 handshake signing key"));
        }
        let identity_key = &keys[binding_index];
        let signing_key = &keys[r];
        proof {
            lemma_verified_record_ok(*self, policy);
            assert(super::record::key_entry_ok(keys@[binding_index as int]));
            assert(super::record::key_entry_ok(keys@[r as int]));
        }
        if identity_key.public_key.len() != 32 || signing_key.public_key.len() != 32 {
            return Err(invalid("pinned keys must be 32 bytes"));
        }
        let pin = PeerPin {
            identity_public: to_array32(identity_key.public_key.as_slice()),
            signing_public: to_array32(signing_key.public_key.as_slice()),
        };
        proof {
            assert forall|j: int| 0 <= j < self.keys@.len() && binding_candidate(#[trigger] self.keys@[j], self.issued_at, policy)
                implies pin.identity_public@ == self.keys@[j].public_key@ by {
                lemma_single_binding(self.keys@, j, binding_index as int, self.issued_at, policy);
            }
            assert forall|j: int| 0 <= j < self.keys@.len() && root_candidate(#[trigger] self.keys@[j], self.issued_at, policy)
                implies pin.signing_public@ == self.keys@[j].public_key@ by {
                lemma_single_root(self.keys@, j, r as int);
            }
        }
        Ok(pin)
    }
}

} // verus!
