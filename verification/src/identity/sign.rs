//! Signing identity records with the node's Ed25519 identity key, and
//! building a node's own records.

use ring::signature::KeyPair;
use vstd::prelude::*;

use crate::crypto::IdentityKeyPair;
use crate::error::str_eq;
use crate::wire::bytes_eq;
use super::canonical::canonical_payload_spec;
use super::record::{record_body_ok, record_ok};
use super::rules::token_ok;
use super::types::MAX_CLOCK_SKEW_SECS;
use super::verify::{sat_add, signatures_outcome, signing_key, verify_outcome};
use super::types::VerificationPolicy;
use super::rules::{derive_identity_id, identity_id_of, key_id_of};
use super::types::{
    invalid, AlgorithmId, IdentityEndpoint, IdentityError, IdentityKey, IdentityRecord, KeyRole, RecordHash,
    RecordSignature, RecordStatus, Result, SignatureProfile, ALGORITHM_ED25519, ALGORITHM_X25519,
    IDENTITY_RECORD_VERSION, PROFILE_ED25519, PeerPin,
};
use super::verify::ed25519_valid;

verus! {

/// The Ed25519 public key of a 32-byte seed, as `ring` derives it.
pub uninterp spec fn ed25519_public_spec(seed: Seq<u8>) -> Seq<u8>;

/// The Ed25519 signature of a message under a 32-byte seed, as `ring`
/// computes it (Ed25519 signing is deterministic).
pub uninterp spec fn ed25519_signature_spec(seed: Seq<u8>, message: Seq<u8>) -> Seq<u8>;

/// Calls `ring::signature::Ed25519KeyPair::from_seed_unchecked` and returns
/// the public key. The call only fails for a seed that is not 32 bytes long,
/// which the array type excludes; the result is the 32-byte public key of
/// the seed.
#[verifier::external_body]
pub(crate) fn ed25519_public_from_seed(seed: &[u8; 32]) -> (public: [u8; 32])
    ensures
        public@ == ed25519_public_spec(seed@),
{
    let pair = ring::signature::Ed25519KeyPair::from_seed_unchecked(seed).expect("32-byte seed");
    let mut out = [0u8; 32];
    out.copy_from_slice(pair.public_key().as_ref());
    out
}

/// Calls `Ed25519KeyPair::from_seed_unchecked(seed).sign(message)`. The
/// result is the 64-byte signature of the message, and, as for any Ed25519
/// signature made with the key, `ring`'s verification accepts it under the
/// seed's public key.
#[verifier::external_body]
fn ed25519_sign(seed: &[u8; 32], message: &[u8]) -> (signature: Vec<u8>)
    ensures
        signature@ == ed25519_signature_spec(seed@, message@),
        signature@.len() == 64,
        ed25519_valid(ed25519_public_spec(seed@), message@, signature@),
{
    let pair = ring::signature::Ed25519KeyPair::from_seed_unchecked(seed).expect("32-byte seed");
    pair.sign(message).as_ref().to_vec()
}

/// A key that `sign_with_identity` signs with: the root signing key, Ed25519,
/// with the given public key.
pub open spec fn is_signer_key(k: IdentityKey, signing_public: Seq<u8>) -> bool {
    k.role is RootSigning && k.algorithm@ == ALGORITHM_ED25519@ && k.public_key@ == signing_public
}

/// The first key of `keys` that is the signer's, if any.
pub open spec fn first_signer(keys: Seq<IdentityKey>, signing_public: Seq<u8>) -> Option<int> {
    if exists|i: int| 0 <= i < keys.len() && is_signer_key(#[trigger] keys[i], signing_public) {
        Some(
            choose|i: int|
                0 <= i < keys.len() && is_signer_key(#[trigger] keys[i], signing_public) && forall|j: int|
                    0 <= j < i ==> !is_signer_key(#[trigger] keys[j], signing_public),
        )
    } else {
        None
    }
}

/// Why `sign_with_identity` refuses to sign, if it does.
pub enum SignRefusal {
    /// The record's signature profile is not Ed25519.
    Profile,
    /// The record already carries signatures.
    AlreadySigned,
    /// The identity's signing key is not the record's root signing key.
    NotRootKey,
    /// The record breaks a structural rule.
    Malformed,
}

/// The refusal `sign_with_identity` reports for a record and a signing key.
pub open spec fn sign_refusal(r: IdentityRecord, signing_public: Seq<u8>) -> Option<SignRefusal> {
    if r.signature_profile@ != PROFILE_ED25519@ {
        Some(SignRefusal::Profile)
    } else if r.signatures@.len() > 0 {
        Some(SignRefusal::AlreadySigned)
    } else if first_signer(r.keys@, signing_public) is None {
        Some(SignRefusal::NotRootKey)
    } else if !record_body_ok(r) {
        Some(SignRefusal::Malformed)
    } else {
        None
    }
}

/// The fields other than the signatures are the same.
pub open spec fn same_unsigned(a: IdentityRecord, b: IdentityRecord) -> bool {
    &&& a.version == b.version
    &&& a.subject == b.subject
    &&& a.signature_profile@ == b.signature_profile@
    &&& a.sequence == b.sequence
    &&& a.issued_at == b.issued_at
    &&& a.expires_at == b.expires_at
    &&& a.previous_record == b.previous_record
    &&& a.status == b.status
    &&& a.keys@ == b.keys@
    &&& a.endpoints@ == b.endpoints@
    &&& a.capabilities@ == b.capabilities@
}

proof fn lemma_first_signer(keys: Seq<IdentityKey>, signing_public: Seq<u8>, i: int)
    requires
        0 <= i < keys.len(),
        is_signer_key(keys[i], signing_public),
        forall|j: int| 0 <= j < i ==> !is_signer_key(#[trigger] keys[j], signing_public),
    ensures
        first_signer(keys, signing_public) == Some(i),
{
    let c = choose|c: int|
        0 <= c < keys.len() && is_signer_key(#[trigger] keys[c], signing_public) && forall|j: int|
            0 <= j < c ==> !is_signer_key(#[trigger] keys[j], signing_public);
    assert(is_signer_key(keys[i], signing_public));
    if c < i {
        assert(!is_signer_key(keys[c], signing_public));
    }
    if c > i {
        assert(!is_signer_key(keys[i], signing_public));
    }
}

/// A policy under which the record's signature is checked at a time that
/// both the record and its root signing key cover: a bounded clock skew, no
/// other expected subject, issued no later than now plus the skew, not
/// expired beyond the skew, and no demand for a post-quantum signature.
pub open spec fn verifies_when_fresh(r: IdentityRecord, signing_public: Seq<u8>, p: VerificationPolicy) -> bool {
    let k = r.keys@[first_signer(r.keys@, signing_public)->0];
    &&& p.clock_skew_secs <= MAX_CLOCK_SKEW_SECS
    &&& (p.expected_subject matches Some(x) ==> x@ == r.subject@)
    &&& r.issued_at <= sat_add(p.now_secs, p.clock_skew_secs)
    &&& sat_add(r.expires_at, p.clock_skew_secs) >= p.now_secs
    &&& k.not_before <= r.issued_at <= k.not_after
    &&& k.not_before <= sat_add(p.now_secs, p.clock_skew_secs)
    &&& sat_add(k.not_after, p.clock_skew_secs) >= p.now_secs
    &&& !p.require_pqc_signature
}

proof fn lemma_ed25519_token()
    ensures
        token_ok(ALGORITHM_ED25519@, 96),
{
    reveal_strlit("ed25519");
}

proof fn lemma_signed_record_verifies(unsigned: IdentityRecord, signed: IdentityRecord, signing_public: Seq<u8>, p: VerificationPolicy)
    requires
        sign_refusal(unsigned, signing_public) is None,
        same_unsigned(signed, unsigned),
        signed.signatures@.len() == 1,
        signed.signatures@[0].key_id == unsigned.keys@[first_signer(unsigned.keys@, signing_public)->0].key_id,
        signed.signatures@[0].algorithm@ == ALGORITHM_ED25519@,
        signed.signatures@[0].signature@.len() == 64,
        ed25519_valid(signing_public, canonical_payload_spec(unsigned), signed.signatures@[0].signature@),
        verifies_when_fresh(unsigned, signing_public, p),
    ensures
        verify_outcome(signed, p) is None,
{
    reveal(verify_outcome);
    let i = first_signer(unsigned.keys@, signing_public)->0;
    let keys = unsigned.keys@;
    assert(0 <= i < keys.len() && super::sign::is_signer_key(keys[i], signing_public));
    assert(record_body_ok(signed));
    let s = signed.signatures@[0];
    lemma_ed25519_token();
    assert(super::record::signature_entry_ok(signed.keys@, s));
    assert(super::record::has_root_signature(signed)) by {
        assert(signed.signatures@[0].key_id@ == signed.keys@[i].key_id@);
    }
    assert(super::record::distinct_signatures(signed.signatures@));
    assert(record_ok(signed));
    assert(canonical_payload_spec(signed) == canonical_payload_spec(unsigned));
    let k = signing_key(signed.keys@, s);
    assert(k == keys[i]) by {
        let c = choose|c: int| 0 <= c < keys.len() && (#[trigger] keys[c]).key_id@ == s.key_id@;
        assert(keys[i].key_id@ == s.key_id@);
        if c != i {
            if c < i {
                assert(keys[c].key_id@ != keys[i].key_id@);
            } else {
                assert(keys[i].key_id@ != keys[c].key_id@);
            }
        }
    }
    assert(signatures_outcome(signed, p, canonical_payload_spec(signed), 0) is None);
    assert(signatures_outcome(signed, p, canonical_payload_spec(signed), 1) is None);
}

impl IdentityRecord {
    /// Signs the record's canonical payload with the identity's Ed25519 key,
    /// which must be the record's root signing key; the record must use the
    /// Ed25519 profile, carry no signature yet and be well formed.
    pub fn sign_with_identity(&mut self, identity: &IdentityKeyPair) -> (res: Result<()>)
        ensures
            res is Ok <==> sign_refusal(*old(self), identity.signing_public_spec()) is None,
            res is Err ==> *final(self) == *old(self),
            res matches Err(e) ==> match sign_refusal(*old(self), identity.signing_public_spec())->0 {
                SignRefusal::Profile => e matches IdentityError::UnsupportedAlgorithm(m) && m@ == old(
                    self,
                ).signature_profile@,
                _ => e is InvalidRecord,
            },
            res is Ok ==> same_unsigned(*final(self), *old(self)),
            res is Ok ==> final(self).signatures@.len() == 1,
            res is Ok && identity.wf() ==> forall|p: VerificationPolicy|
                #[trigger] verifies_when_fresh(*old(self), identity.signing_public_spec(), p) ==> verify_outcome(
                    *final(self),
                    p,
                ) is None,
            res is Ok ==> ({
                let s = final(self).signatures@[0];
                let i = first_signer(old(self).keys@, identity.signing_public_spec())->0;
                &&& s.key_id == old(self).keys@[i].key_id
                &&& s.algorithm@ == ALGORITHM_ED25519@
                &&& s.signature@ == ed25519_signature_spec(
                    identity.signing_seed_spec(),
                    canonical_payload_spec(*old(self)),
                )
            }),
    {
        if !str_eq(self.signature_profile.as_str(), PROFILE_ED25519) {
            return Err(IdentityError::UnsupportedAlgorithm(String::from_str(self.signature_profile.as_str())));
        }
        if self.signatures.len() > 0 {
            return Err(invalid("record is already signed"));
        }
        let signing_public = identity.signing_public_bytes();
        let mut found: Option<usize> = None;
        let mut i: usize = 0;
        while i < self.keys.len()
            invariant
                i <= self.keys@.len(),
                signing_public@ == identity.signing_public_spec(),
                found is None ==> forall|j: int| 0 <= j < i ==> !is_signer_key(#[trigger] self.keys@[j], signing_public@),
                found matches Some(f) ==> f < self.keys@.len() && is_signer_key(self.keys@[f as int], signing_public@)
                    && forall|j: int| 0 <= j < f ==> !is_signer_key(#[trigger] self.keys@[j], signing_public@),
            decreases self.keys@.len() - i,
        {
            if found.is_none() {
                let k = &self.keys[i];
                if k.role == KeyRole::RootSigning && str_eq(k.algorithm.as_str(), ALGORITHM_ED25519) && bytes_eq(
                    k.public_key.as_slice(),
                    signing_public.as_slice(),
                ) {
                    found = Some(i);
                }
            }
            i = i + 1;
        }
        let root = match found {
            Some(f) => {
                proof {
                    lemma_first_signer(self.keys@, signing_public@, f as int);
                }
                f
            },
            None => {
                return Err(invalid("identity signing key is not the record's root signing key"));
            },
        };
        let payload = match self.canonical_payload() {
            Ok(p) => p,
            Err(e) => return Err(e),
        };
        let seed = identity.signing_seed();
        let signature = ed25519_sign(&seed, payload.as_slice());
        let key_id = self.keys[root].key_id;
        let ghost unsigned = *self;
        self.signatures.push(RecordSignature { key_id, algorithm: AlgorithmId::ed25519(), signature });
        proof {
            if identity.wf() {
                assert forall|p: VerificationPolicy| #[trigger] verifies_when_fresh(unsigned, identity.signing_public_spec(), p)
                    implies verify_outcome(*self, p) is None by {
                    lemma_signed_record_verifies(unsigned, *self, identity.signing_public_spec(), p);
                }
            }
        }
        Ok(())
    }
}

/// The record `from_current_identity_with_previous` builds before signing:
/// version, subject derived from the signing key, Ed25519 profile, active
/// status, the root signing key and the X25519 identity binding, both valid
/// over the record's lifetime.
pub open spec fn unsigned_identity_record(
    r: IdentityRecord,
    identity: IdentityKeyPair,
    sequence: u64,
    issued_at: u64,
    expires_at: u64,
    previous_record: Option<RecordHash>,
    endpoints: Seq<IdentityEndpoint>,
    capabilities: Seq<String>,
) -> bool {
    &&& r.version == IDENTITY_RECORD_VERSION
    &&& r.subject@ == identity_id_of(identity.signing_public_spec())
    &&& r.signature_profile@ == PROFILE_ED25519@
    &&& r.sequence == sequence
    &&& r.issued_at == issued_at
    &&& r.expires_at == expires_at
    &&& r.previous_record == previous_record
    &&& r.status is Active
    &&& r.keys@.len() == 2
    &&& r.keys@[0].role is RootSigning
    &&& r.keys@[0].algorithm@ == ALGORITHM_ED25519@
    &&& r.keys@[0].public_key@ == identity.signing_public_spec()
    &&& r.keys@[0].key_id@ == key_id_of(KeyRole::RootSigning, ALGORITHM_ED25519@, identity.signing_public_spec())
    &&& r.keys@[0].not_before == issued_at
    &&& r.keys@[0].not_after == expires_at
    &&& r.keys@[0].previous_key_id is None
    &&& r.keys@[1].role is IdentityBinding
    &&& r.keys@[1].algorithm@ == ALGORITHM_X25519@
    &&& r.keys@[1].public_key@ == identity.public_spec()
    &&& r.keys@[1].key_id@ == key_id_of(KeyRole::IdentityBinding, ALGORITHM_X25519@, identity.public_spec())
    &&& r.keys@[1].not_before == issued_at
    &&& r.keys@[1].not_after == expires_at
    &&& r.keys@[1].previous_key_id is None
    &&& r.endpoints@ == endpoints
    &&& r.capabilities@ == capabilities
}

/// The rules `sign_with_identity` checks give the same answer for any two
/// records that `unsigned_identity_record` describes with the same inputs.
proof fn lemma_unsigned_refusal_determined(
    a: IdentityRecord,
    b: IdentityRecord,
    identity: IdentityKeyPair,
    sequence: u64,
    issued_at: u64,
    expires_at: u64,
    previous_record: Option<RecordHash>,
    endpoints: Seq<IdentityEndpoint>,
    capabilities: Seq<String>,
)
    requires
        unsigned_identity_record(a, identity, sequence, issued_at, expires_at, previous_record, endpoints, capabilities),
        unsigned_identity_record(b, identity, sequence, issued_at, expires_at, previous_record, endpoints, capabilities),
        a.signatures@.len() == 0,
        b.signatures@.len() == 0,
    ensures
        sign_refusal(a, identity.signing_public_spec()) is None <==> sign_refusal(b, identity.signing_public_spec()) is None,
{
    let pk = identity.signing_public_spec();
    assert(is_signer_key(a.keys@[0], pk));
    assert(is_signer_key(b.keys@[0], pk));
    assert(first_signer(a.keys@, pk) is Some);
    assert(first_signer(b.keys@, pk) is Some);
    if record_body_ok(a) {
        lemma_body_ok_transfers(a, b, identity, sequence, issued_at, expires_at, previous_record, endpoints, capabilities);
    }
    if record_body_ok(b) {
        lemma_body_ok_transfers(b, a, identity, sequence, issued_at, expires_at, previous_record, endpoints, capabilities);
    }
}

proof fn lemma_body_ok_transfers(
    a: IdentityRecord,
    b: IdentityRecord,
    identity: IdentityKeyPair,
    sequence: u64,
    issued_at: u64,
    expires_at: u64,
    previous_record: Option<RecordHash>,
    endpoints: Seq<IdentityEndpoint>,
    capabilities: Seq<String>,
)
    requires
        unsigned_identity_record(a, identity, sequence, issued_at, expires_at, previous_record, endpoints, capabilities),
        unsigned_identity_record(b, identity, sequence, issued_at, expires_at, previous_record, endpoints, capabilities),
        record_body_ok(a),
    ensures
        record_body_ok(b),
{
    reveal_with_fuel(super::record::root_count, 3);
    let ka = a.keys@;
    let kb = b.keys@;
    assert(super::record::key_entry_ok(ka[0]) && super::record::key_entry_ok(ka[1]));
    assert forall|i: int| 0 <= i < kb.len() implies super::record::key_entry_ok(#[trigger] kb[i]) by {
        assert(super::record::key_entry_ok(ka[i]));
    }
    assert(ka[0].key_id@ != ka[1].key_id@);
    assert(super::record::distinct_key_ids(kb));
    assert(kb.drop_last().drop_last().len() == 0);
    assert(super::record::root_count(ka) == 1);
    assert(super::record::root_count(kb) == 1);
    assert(super::record::subject_bound(b)) by {
        assert forall|i: int| 0 <= i < kb.len() && (#[trigger] kb[i]).role is RootSigning implies b.subject@
            == identity_id_of(kb[i].public_key@) by {
            assert(i == 0);
        }
    }
    assert(b.endpoints@ == a.endpoints@);
    assert(b.capabilities@ == a.capabilities@);
}

impl IdentityRecord {
    /// Builds and signs an initial record. Records with a predecessor are
    /// built with [`IdentityRecord::from_current_identity_with_previous`], so
    /// the continuity link cannot be left out by accident.
    pub fn from_current_identity(
        identity: &IdentityKeyPair,
        sequence: u64,
        issued_at: u64,
        expires_at: u64,
        endpoints: Vec<IdentityEndpoint>,
        capabilities: Vec<String>,
    ) -> (res: Result<Self>)
        ensures
            res matches Ok(r) ==> exists|u: IdentityRecord| {
                &&& unsigned_identity_record(u, *identity, sequence, issued_at, expires_at, None, endpoints@, capabilities@)
                &&& sign_refusal(u, identity.signing_public_spec()) is None
                &&& same_unsigned(r, u)
                &&& r.signatures@.len() == 1
                &&& r.signatures@[0].key_id == u.keys@[0].key_id
                &&& r.signatures@[0].algorithm@ == ALGORITHM_ED25519@
                &&& r.signatures@[0].signature@ == ed25519_signature_spec(
                    identity.signing_seed_spec(),
                    canonical_payload_spec(u),
                )
                &&& (identity.wf() ==> forall|p: VerificationPolicy|
                    #[trigger] verifies_when_fresh(u, identity.signing_public_spec(), p) ==> verify_outcome(r, p) is None)
            },
            res matches Err(e) ==> e is InvalidRecord || e is UnsupportedAlgorithm,
            forall|u: IdentityRecord|
                #![trigger unsigned_identity_record(u, *identity, sequence, issued_at, expires_at, None, endpoints@, capabilities@)]
                unsigned_identity_record(u, *identity, sequence, issued_at, expires_at, None, endpoints@, capabilities@)
                    && sign_refusal(u, identity.signing_public_spec()) is None ==> res is Ok,
    {
        Self::from_current_identity_with_previous(identity, sequence, issued_at, expires_at, None, endpoints, capabilities)
    }

    /// Builds and signs a record that continues `previous_record`.
    pub fn from_current_identity_with_previous(
        identity: &IdentityKeyPair,
        sequence: u64,
        issued_at: u64,
        expires_at: u64,
        previous_record: Option<RecordHash>,
        endpoints: Vec<IdentityEndpoint>,
        capabilities: Vec<String>,
    ) -> (res: Result<Self>)
        ensures
            res matches Ok(r) ==> exists|u: IdentityRecord| {
                &&& unsigned_identity_record(
                    u,
                    *identity,
                    sequence,
                    issued_at,
                    expires_at,
                    previous_record,
                    endpoints@,
                    capabilities@,
                )
                &&& sign_refusal(u, identity.signing_public_spec()) is None
                &&& same_unsigned(r, u)
                &&& r.signatures@.len() == 1
                &&& r.signatures@[0].key_id == u.keys@[0].key_id
                &&& r.signatures@[0].algorithm@ == ALGORITHM_ED25519@
                &&& r.signatures@[0].signature@ == ed25519_signature_spec(
                    identity.signing_seed_spec(),
                    canonical_payload_spec(u),
                )
                &&& (identity.wf() ==> forall|p: VerificationPolicy|
                    #[trigger] verifies_when_fresh(u, identity.signing_public_spec(), p) ==> verify_outcome(r, p) is None)
            },
            res matches Err(e) ==> e is InvalidRecord || e is UnsupportedAlgorithm,
            forall|u: IdentityRecord|
                #![trigger unsigned_identity_record(u, *identity, sequence, issued_at, expires_at, previous_record, endpoints@, capabilities@)]
                unsigned_identity_record(u, *identity, sequence, issued_at, expires_at, previous_record, endpoints@, capabilities@)
                    && sign_refusal(u, identity.signing_public_spec()) is None ==> res is Ok,
    {
        let root_public = identity.signing_public_bytes();
        let identity_binding = identity.public_key_bytes();
        let subject = derive_identity_id(root_public.as_slice());
        let root = match IdentityKey::new(
            KeyRole::RootSigning,
            AlgorithmId::ed25519(),
            crate::wire::copy_bytes(root_public.as_slice()),
            issued_at,
            expires_at,
            None,
        ) {
            Ok(k) => k,
            Err(e) => {
                proof {
                    assert forall|u: IdentityRecord|
                        unsigned_identity_record(u, *identity, sequence, issued_at, expires_at, previous_record, endpoints@, capabilities@)
                        implies !record_body_ok(u) by {
                        if record_body_ok(u) {
                            assert(super::record::key_entry_ok(u.keys@[0]));
                        }
                    }
                }
                return Err(e);
            },
        };
        let binding = match IdentityKey::new(
            KeyRole::IdentityBinding,
            AlgorithmId::x25519(),
            crate::wire::copy_bytes(identity_binding.as_slice()),
            issued_at,
            expires_at,
            None,
        ) {
            Ok(k) => k,
            Err(e) => {
                proof {
                    assert forall|u: IdentityRecord|
                        unsigned_identity_record(u, *identity, sequence, issued_at, expires_at, previous_record, endpoints@, capabilities@)
                        implies !record_body_ok(u) by {
                        if record_body_ok(u) {
                            assert(super::record::key_entry_ok(u.keys@[1]));
                        }
                    }
                }
                return Err(e);
            },
        };
        let mut keys: Vec<IdentityKey> = Vec::new();
        keys.push(root);
        keys.push(binding);
        let mut record = IdentityRecord {
            version: IDENTITY_RECORD_VERSION,
            subject,
            signature_profile: SignatureProfile::ed25519(),
            sequence,
            issued_at,
            expires_at,
            previous_record,
            status: RecordStatus::Active,
            keys,
            endpoints,
            capabilities,
            signatures: Vec::new(),
        };
        let ghost unsigned = record;
        proof {
            if record.keys@[0].role is RootSigning && record.keys@[0].algorithm@ == ALGORITHM_ED25519@ {
                assert(is_signer_key(record.keys@[0], identity.signing_public_spec()));
                lemma_first_signer(record.keys@, identity.signing_public_spec(), 0);
            }
        }
        let ghost ep = endpoints@;
        let ghost cp = capabilities@;
        match record.sign_with_identity(identity) {
            Ok(()) => {},
            Err(e) => {
                proof {
                    assert forall|u: IdentityRecord|
                        unsigned_identity_record(u, *identity, sequence, issued_at, expires_at, previous_record, ep, cp)
                            && sign_refusal(u, identity.signing_public_spec()) is None implies false by {
                        lemma_unsigned_refusal_determined(
                            u,
                            unsigned,
                            *identity,
                            sequence,
                            issued_at,
                            expires_at,
                            previous_record,
                            ep,
                            cp,
                        );
                    }
                }
                return Err(e);
            },
        }
        Ok(record)
    }
}

impl PeerPin {
    /// A pin from an X25519 identity key and an Ed25519 handshake signing key.
    pub fn new(identity_public: [u8; 32], signing_public: [u8; 32]) -> (p: Self)
        ensures
            p.identity_public == identity_public,
            p.signing_public == signing_public,
    {
        PeerPin { identity_public, signing_public }
    }

    /// The pin under which peers know a local identity.
    pub fn for_identity(identity: &IdentityKeyPair) -> (p: Self)
        ensures
            p.identity_public@ == identity.public_spec(),
            p.signing_public@ == identity.signing_public_spec(),
    {
        PeerPin::new(identity.public_key_bytes(), identity.signing_public_bytes())
    }
}

} // verus!
