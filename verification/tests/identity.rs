use shph::crypto::IdentityKeyPair;
use shph::identity::resolve::{DiscoveryResolver, ProviderAnswer};
use shph::identity::types::{
    AlgorithmId, DiscoveryPluginDescriptor, Hash32, IdentityEndpoint, IdentityError, IdentityKey, IdentityRecord,
    KeyRole, PeerPin, RecordSignature, RecordStatus, SignatureProfile, VerificationPolicy,
    DISCOVERY_PLUGIN_API_VERSION, MAX_CLOCK_SKEW_SECS, MAX_DISCOVERY_PROVIDERS, MAX_PROVIDER_RECORDS,
};

fn identity() -> IdentityKeyPair {
    IdentityKeyPair::generate().expect("identity")
}

fn record(identity: &IdentityKeyPair, now: u64) -> IdentityRecord {
    IdentityRecord::from_current_identity(
        identity,
        1,
        now.saturating_sub(10),
        now + 3_600,
        vec![IdentityEndpoint::new("tcp", "198.51.100.10:51820", 10).expect("endpoint")],
        vec!["transport:tcp".into(), "kem:ml-kem-768".into()],
    )
    .expect("record")
}

fn answer(provider_id: &str, records: Option<Vec<IdentityRecord>>) -> Option<ProviderAnswer> {
    Some(ProviderAnswer {
        provider_id: provider_id.to_string(),
        descriptor: DiscoveryPluginDescriptor::minimal(provider_id),
        records,
    })
}

fn root_position(record: &IdentityRecord, role: KeyRole) -> usize {
    record.keys.iter().position(|key| key.role == role).expect("key with role")
}

#[test]
fn signed_record_round_trips_and_maps_to_existing_peer_pin() {
    let now = 1_800_000_000;
    let identity = identity();
    let record = record(&identity, now);
    let result = record.verify(VerificationPolicy::at(now)).expect("verify");
    assert_eq!(result.subject, record.subject);
    assert!(!result.pqc_authenticated);
    let pin = record.to_peer_pin(VerificationPolicy::at(now)).expect("peer pin");
    assert_eq!(pin, PeerPin::for_identity(&identity));
}

#[test]
fn canonical_signature_rejects_endpoint_substitution() {
    let now = 1_800_000_000;
    let identity = identity();
    let mut record = record(&identity, now);
    record.endpoints[0].address = "203.0.113.77:443".into();
    assert!(matches!(record.verify(VerificationPolicy::at(now)), Err(IdentityError::InvalidSignature)));
}

#[test]
fn canonical_payload_is_independent_of_collection_order() {
    let now = 1_800_000_000;
    let identity = identity();
    let record = record(&identity, now);
    let mut reordered = record.clone();
    reordered.keys.reverse();
    reordered.endpoints.reverse();
    reordered.capabilities.reverse();
    reordered.verify(VerificationPolicy::at(now)).expect("reordered record");
    assert_eq!(reordered.record_hash().expect("reordered hash"), record.record_hash().expect("original hash"));
}

#[test]
fn unsupported_pqc_profiles_fail_closed_instead_of_downgrading() {
    let now = 1_800_000_000;
    let identity = identity();
    let mut record = record(&identity, now);
    record.signature_profile = SignatureProfile::hybrid_ed25519_ml_dsa_65();
    assert!(matches!(record.verify(VerificationPolicy::at(now)), Err(IdentityError::UnsupportedAlgorithm(_))));
}

#[test]
fn resolver_handles_provider_failure_without_affecting_direct_core_use() {
    let now = 1_800_000_000;
    let identity = identity();
    let record = record(&identity, now);
    let mut resolver = DiscoveryResolver::new();
    let answers = vec![answer("failing", None)];
    assert!(matches!(
        resolver.resolve_answers(&record.subject, answers, VerificationPolicy::at(now)),
        Err(IdentityError::ProviderUnavailable(_))
    ));
    let pin = PeerPin::for_identity(&identity);
    assert_eq!(pin.identity_public, identity.public_key_bytes());
}

#[test]
fn resolver_bounds_provider_count_and_candidate_amplification() {
    let now = 1_800_000_000;
    let identity = identity();
    let record = record(&identity, now);
    let mut resolver = DiscoveryResolver::new();
    let many: Vec<IdentityRecord> = vec![record.clone(); MAX_PROVIDER_RECORDS + 1];
    let answers = vec![answer("many", Some(many))];
    assert!(matches!(
        resolver.resolve_answers(&record.subject, answers, VerificationPolicy::at(now)),
        Err(IdentityError::ProviderUnavailable(_))
    ));

    let too_many: Vec<Option<ProviderAnswer>> =
        (0..MAX_DISCOVERY_PROVIDERS + 1).map(|_| answer("many", Some(vec![record.clone()]))).collect();
    assert!(matches!(
        resolver.resolve_answers(&record.subject, too_many, VerificationPolicy::at(now)),
        Err(IdentityError::InvalidRecord(_))
    ));
}

#[test]
fn resolver_rejects_plugin_descriptor_identity_mismatch() {
    let mut resolver = DiscoveryResolver::new();
    let subject = Hash32::zero();
    let descriptor =
        DiscoveryPluginDescriptor::new("different-provider", "test", vec!["retrieval".into()]).expect("descriptor");
    let answers = vec![Some(ProviderAnswer {
        provider_id: "actual-provider".to_string(),
        descriptor,
        records: Some(Vec::new()),
    })];
    assert!(matches!(
        resolver.resolve_answers(&subject, answers, VerificationPolicy::at(1_800_000_000)),
        Err(IdentityError::ProviderUnavailable(_))
    ));
}

#[test]
fn expired_and_revoked_records_cannot_be_used_as_peer_pins() {
    let now = 1_800_000_000;
    let identity = identity();
    let expired =
        IdentityRecord::from_current_identity(&identity, 1, now - 3_600, now - 1_000, Vec::new(), Vec::new())
            .expect("expired record");
    assert!(matches!(expired.verify(VerificationPolicy::at(now)), Err(IdentityError::Expired)));

    let mut revoked = record(&identity, now);
    revoked.status = RecordStatus::Revoked { revoked_at: now - 5, reason: "test revocation".into() };
    revoked.signatures.clear();
    revoked.sign_with_identity(&identity).expect("sign revoked");
    revoked.verify(VerificationPolicy::at(now)).expect("revocation is authenticated");
    assert!(matches!(revoked.to_peer_pin(VerificationPolicy::at(now)), Err(IdentityError::InvalidRecord(_))));
}

#[test]
fn signing_key_validity_is_enforced() {
    let now = 1_800_000_000;
    let identity = identity();
    let mut record = record(&identity, now);
    let root = root_position(&record, KeyRole::RootSigning);
    record.keys[root].not_before = now + 600;
    record.signatures.clear();
    record.sign_with_identity(&identity).expect("resign");
    assert!(matches!(record.verify(VerificationPolicy::at(now)), Err(IdentityError::InvalidRecord(_))));
}

#[test]
fn record_subject_is_bound_to_the_root_signing_key() {
    let now = 1_800_000_000;
    let identity = identity();
    let mut record = record(&identity, now);
    record.subject = Hash32([0xA5; 32]);
    record.signatures.clear();
    assert!(matches!(record.sign_with_identity(&identity), Err(IdentityError::InvalidRecord(_))));
}

#[test]
fn recovery_signature_alone_cannot_authorize_a_record() {
    let now = 1_800_000_000;
    let signing_identity = identity();
    let recovery = identity();
    let mut record = record(&signing_identity, now);
    let recovery_key = IdentityKey::new(
        KeyRole::RecoverySigning,
        AlgorithmId::ed25519(),
        recovery.signing_public_bytes().to_vec(),
        record.issued_at,
        record.expires_at,
        None,
    )
    .expect("recovery key");
    record.keys.push(recovery_key.clone());
    record.signatures.clear();
    let payload = record.canonical_payload().expect("payload");
    let keypair =
        ring::signature::Ed25519KeyPair::from_seed_unchecked(&recovery.signing_seed()).expect("recovery keypair");
    let signature = keypair.sign(&payload);
    record.signatures.push(RecordSignature {
        key_id: recovery_key.key_id,
        algorithm: AlgorithmId::ed25519(),
        signature: signature.as_ref().to_vec(),
    });
    assert!(matches!(record.verify(VerificationPolicy::at(now)), Err(IdentityError::InvalidRecord(_))));
}

#[test]
fn peer_pin_rejects_an_expired_identity_binding() {
    let now = 1_800_000_000;
    let signing_identity = identity();
    let mut record = record(&signing_identity, now);
    let binding = root_position(&record, KeyRole::IdentityBinding);
    record.keys[binding].not_before = now - 1_000;
    record.keys[binding].not_after = now - 1;
    record.signatures.clear();
    record.sign_with_identity(&signing_identity).expect("resign");
    assert!(matches!(record.to_peer_pin(VerificationPolicy::at(now)), Err(IdentityError::InvalidRecord(_))));
}

#[test]
fn peer_pin_rejects_ambiguous_current_identity_bindings() {
    let now = 1_800_000_000;
    let signing_identity = identity();
    let second_identity = identity();
    let mut record = record(&signing_identity, now);
    record.keys.push(
        IdentityKey::new(
            KeyRole::IdentityBinding,
            AlgorithmId::x25519(),
            second_identity.public_key_bytes().to_vec(),
            record.issued_at,
            record.expires_at,
            None,
        )
        .expect("second binding key"),
    );
    record.signatures.clear();
    record.sign_with_identity(&signing_identity).expect("resign");
    assert!(matches!(record.to_peer_pin(VerificationPolicy::at(now)), Err(IdentityError::InvalidRecord(_))));
}

#[test]
fn peer_pin_ignores_an_expired_operational_signing_key() {
    let now = 1_800_000_000;
    let signing_identity = identity();
    let operational = identity();
    let mut record = record(&signing_identity, now);
    record.keys.push(
        IdentityKey::new(
            KeyRole::OperationalSigning,
            AlgorithmId::ed25519(),
            operational.signing_public_bytes().to_vec(),
            now - 1_000,
            now - 1,
            None,
        )
        .expect("operational key"),
    );
    record.signatures.clear();
    record.sign_with_identity(&signing_identity).expect("resign");
    let pin = record.to_peer_pin(VerificationPolicy::at(now)).expect("fallback to root signing key");
    assert_eq!(pin, PeerPin::for_identity(&signing_identity));
}

#[test]
fn peer_pin_rejects_a_current_operational_signing_key_until_handshake_support_exists() {
    let now = 1_800_000_000;
    let signing_identity = identity();
    let operational = identity();
    let mut record = record(&signing_identity, now);
    record.keys.push(
        IdentityKey::new(
            KeyRole::OperationalSigning,
            AlgorithmId::ed25519(),
            operational.signing_public_bytes().to_vec(),
            now - 1_000,
            now + 1_000,
            None,
        )
        .expect("operational key"),
    );
    record.signatures.clear();
    record.sign_with_identity(&signing_identity).expect("resign");
    assert!(matches!(
        record.to_peer_pin(VerificationPolicy::at(now)),
        Err(IdentityError::InvalidRecord(message)) if message.contains("shph-core cannot emit")
    ));
}

#[test]
fn initial_record_cannot_skip_a_previous_record() {
    let now = 1_800_000_000;
    let identity = identity();
    let mut record = record(&identity, now);
    record.previous_record = Some(Hash32([0x11; 32]));
    record.signatures.clear();
    assert!(matches!(record.sign_with_identity(&identity), Err(IdentityError::InvalidRecord(_))));
}

#[test]
fn non_initial_record_requires_a_previous_record() {
    let now = 1_800_000_000;
    let identity = identity();
    let mut record = record(&identity, now);
    record.sequence = 2;
    assert!(matches!(record.validate_structure(), Err(IdentityError::InvalidRecord(_))));
}

#[test]
fn update_constructor_requires_and_binds_previous_record() {
    let now = 1_800_000_000;
    let identity = identity();
    let first = record(&identity, now);
    let second = IdentityRecord::from_current_identity_with_previous(
        &identity,
        2,
        now,
        now + 3_600,
        Some(first.record_hash().expect("first hash")),
        Vec::new(),
        Vec::new(),
    )
    .expect("linked update");
    assert_eq!(second.previous_record, Some(first.record_hash().expect("first hash")));
    assert!(second.verify(VerificationPolicy::at(now)).is_ok());
}

#[test]
fn verification_rejects_unbounded_clock_skew() {
    let now = 1_800_000_000;
    let identity = identity();
    let record = record(&identity, now);
    let mut policy = VerificationPolicy::at(now);
    policy.clock_skew_secs = MAX_CLOCK_SKEW_SECS + 1;
    assert!(matches!(record.verify(policy), Err(IdentityError::InvalidRecord(_))));
}

#[test]
fn provider_descriptor_minimal_and_invalid() {
    let descriptor = DiscoveryPluginDescriptor::minimal("local-directory");
    assert_eq!(descriptor.api_version, DISCOVERY_PLUGIN_API_VERSION);
    assert_eq!(descriptor.plugin_id, "local-directory");
    assert_eq!(descriptor.provider_kind, "unknown");
    assert!(descriptor.validate().is_ok());
    assert!(DiscoveryPluginDescriptor::new("invalid/plugin", "local-filesystem", Vec::new()).is_err());
    let full = DiscoveryPluginDescriptor::new(
        "local-directory",
        "local-filesystem",
        vec!["publication".into(), "retrieval".into(), "self-hosted".into()],
    )
    .expect("descriptor");
    assert!(full.capabilities.contains(&"self-hosted".to_string()));
}

#[test]
fn resolver_accepts_initial_record_and_repeats_it() {
    let now = 1_800_000_000;
    let identity = identity();
    let record = record(&identity, now);
    let hash = record.record_hash().expect("hash");
    let mut resolver = DiscoveryResolver::new();
    let first = resolver
        .resolve_answers(&record.subject, vec![answer("local", Some(vec![record.clone()]))], VerificationPolicy::at(now))
        .expect("first resolution");
    assert_eq!(first.record_hash, hash);
    assert_eq!(first.record, record);
    assert_eq!(first.providers_consulted, 1);
    assert_eq!(first.invalid_candidates, 0);
    let again = resolver
        .resolve_answers(&record.subject, vec![answer("local", Some(vec![record.clone()]))], VerificationPolicy::at(now))
        .expect("repeated resolution");
    assert_eq!(again.record_hash, hash);
}

#[test]
fn resolver_uses_valid_provider_when_another_provider_is_unavailable() {
    let now = 1_800_000_000;
    let identity = identity();
    let record = record(&identity, now);
    let mut resolver = DiscoveryResolver::new();
    let answers = vec![answer("local", Some(vec![record.clone()])), answer("failing", None)];
    let resolution =
        resolver.resolve_answers(&record.subject, answers, VerificationPolicy::at(now)).expect("fallback resolution");
    assert_eq!(resolution.record_hash, record.record_hash().expect("hash"));
    assert_eq!(resolution.providers_consulted, 2);
}

#[test]
fn resolver_contains_panicking_plugins() {
    let now = 1_800_000_000;
    let identity = identity();
    let record = record(&identity, now);
    let mut resolver = DiscoveryResolver::new();
    let answers = vec![None, answer("local", Some(vec![record.clone()]))];
    let resolution = resolver
        .resolve_answers(&record.subject, answers, VerificationPolicy::at(now))
        .expect("healthy provider should still resolve");
    assert_eq!(resolution.record_hash, record.record_hash().expect("hash"));
}

#[test]
fn resolver_counts_invalid_candidates_and_reports_not_found() {
    let now = 1_800_000_000;
    let identity = identity();
    let record = record(&identity, now);
    let mut tampered = record.clone();
    tampered.endpoints[0].address = "203.0.113.77:443".into();
    let mut resolver = DiscoveryResolver::new();
    let answers = vec![answer("local", Some(vec![tampered.clone(), record.clone()]))];
    let resolution = resolver.resolve_answers(&record.subject, answers, VerificationPolicy::at(now)).expect("resolve");
    assert_eq!(resolution.invalid_candidates, 1);
    let mut fresh = DiscoveryResolver::new();
    assert!(matches!(
        fresh.resolve_answers(&record.subject, vec![answer("local", Some(vec![tampered]))], VerificationPolicy::at(now)),
        Err(IdentityError::NotFound)
    ));
    assert!(matches!(
        fresh.resolve_answers(&record.subject, vec![answer("local", Some(Vec::new()))], VerificationPolicy::at(now)),
        Err(IdentityError::NotFound)
    ));
    assert!(matches!(
        fresh.resolve_answers(&record.subject, Vec::new(), VerificationPolicy::at(now)),
        Err(IdentityError::NotFound)
    ));
}

#[test]
fn resolver_rejects_same_sequence_conflicts() {
    let now = 1_800_000_000;
    let identity = identity();
    let first = record(&identity, now);
    let mut conflict = first.clone();
    conflict.endpoints[0].address = "203.0.113.77:443".into();
    conflict.signatures.clear();
    conflict.sign_with_identity(&identity).expect("sign conflict");
    let mut resolver = DiscoveryResolver::new();
    let answers = vec![answer("local", Some(vec![first.clone(), conflict]))];
    assert!(matches!(
        resolver.resolve_answers(&first.subject, answers, VerificationPolicy::at(now)),
        Err(IdentityError::Conflict { sequence: 1 })
    ));
}

#[test]
fn resolver_rejects_sequence_rollback() {
    let now = 1_800_000_000;
    let identity = identity();
    let first = record(&identity, now);
    let mut resolver = DiscoveryResolver::new();
    resolver
        .resolve_answers(&first.subject, vec![answer("local", Some(vec![first.clone()]))], VerificationPolicy::at(now))
        .expect("first resolution");

    let mut second = first.clone();
    second.sequence = 2;
    second.previous_record = Some(first.record_hash().expect("first hash"));
    second.signatures.clear();
    second.sign_with_identity(&identity).expect("sign second");
    resolver
        .resolve_answers(
            &first.subject,
            vec![answer("local", Some(vec![first.clone(), second.clone()]))],
            VerificationPolicy::at(now),
        )
        .expect("second resolution");

    let mut rollback = first.clone();
    rollback.endpoints[0].priority = 20;
    rollback.signatures.clear();
    rollback.sign_with_identity(&identity).expect("sign rollback");
    assert!(matches!(
        resolver.resolve_answers(&first.subject, vec![answer("rollback", Some(vec![rollback]))], VerificationPolicy::at(now)),
        Err(IdentityError::Replay)
    ));
}

#[test]
fn resolver_rejects_unanchored_initial_update() {
    let now = 1_800_000_000;
    let identity = identity();
    let mut skipped = record(&identity, now);
    skipped.sequence = 2;
    skipped.previous_record = Some(Hash32([0x55; 32]));
    skipped.signatures.clear();
    skipped.sign_with_identity(&identity).expect("sign skipped update");
    let mut resolver = DiscoveryResolver::new();
    assert!(matches!(
        resolver.resolve_answers(&skipped.subject, vec![answer("local", Some(vec![skipped.clone()]))], VerificationPolicy::at(now)),
        Err(IdentityError::Replay)
    ));
}

#[test]
fn sequence_updates_require_previous_record_hash() {
    let now = 1_800_000_000;
    let signing_identity = identity();
    let first = record(&signing_identity, now);
    let mut resolver = DiscoveryResolver::new();
    resolver
        .resolve_answers(&first.subject, vec![answer("local", Some(vec![first.clone()]))], VerificationPolicy::at(now))
        .expect("first resolution");

    let mut forged_next = first.clone();
    forged_next.sequence = 3;
    forged_next.previous_record = Some(Hash32([0x44; 32]));
    let replacement_identity = identity();
    let replacement_binding = IdentityKey::new(
        KeyRole::IdentityBinding,
        AlgorithmId::x25519(),
        replacement_identity.public_key_bytes().to_vec(),
        forged_next.issued_at,
        forged_next.expires_at,
        None,
    )
    .expect("replacement binding");
    let binding = root_position(&forged_next, KeyRole::IdentityBinding);
    forged_next.keys[binding] = replacement_binding;
    forged_next.signatures.clear();
    forged_next.sign_with_identity(&signing_identity).expect("sign forged next");
    assert!(matches!(
        resolver.resolve_answers(
            &first.subject,
            vec![answer("local", Some(vec![first.clone(), forged_next]))],
            VerificationPolicy::at(now)
        ),
        Err(IdentityError::Replay)
    ));
}

#[test]
fn digest_hex_round_trips_and_rejects_bad_text() {
    let mut bytes = [0u8; 32];
    for (i, b) in bytes.iter_mut().enumerate() {
        *b = (i as u8).wrapping_mul(37);
    }
    let h = Hash32::from_bytes(bytes);
    let text = h.hex();
    assert_eq!(text.len(), 64);
    assert_eq!(&text[..6], "00254a");
    assert_eq!(Hash32::parse_hex(&text).expect("parse"), h);
    assert!(matches!(Hash32::parse_hex(&text.to_uppercase()), Err(IdentityError::InvalidRecord(_))));
    assert!(matches!(Hash32::parse_hex(&text[..62]), Err(IdentityError::InvalidRecord(_))));
    let mut bad = text.clone();
    bad.replace_range(0..1, "g");
    assert!(matches!(Hash32::parse_hex(&bad), Err(IdentityError::InvalidRecord(_))));
}

#[test]
fn record_file_names_are_sequence_padded_and_content_addressed() {
    let h = Hash32([0xab; 32]);
    let name = shph::identity::hex::record_file_name(7, &h);
    assert_eq!(name, format!("00000000000000000007-{}.json", "ab".repeat(32)));
    let max = shph::identity::hex::record_file_name(u64::MAX, &Hash32::zero());
    assert!(max.starts_with("18446744073709551615-0000"));
}
