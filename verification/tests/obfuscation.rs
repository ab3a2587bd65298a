use shph::obfuscation::{apply_profile, apply_profile_with_randomness, remove_profile, ProfileTier};

fn max_frame_len(profile: ProfileTier) -> usize {
    let tiers = profile.base_tiers();
    let max = tiers[tiers.len() - 1];
    max + if matches!(profile, ProfileTier::Low) { 7 } else { 0 }
}

#[test]
fn profile_tiers_match_the_declared_discrete_mapping() {
    assert_eq!(ProfileTier::Low.base_tiers(), &[128, 256]);
    assert_eq!(ProfileTier::Medium.base_tiers(), &[128, 256, 512, 1024, 1360]);
    assert_eq!(ProfileTier::High.base_tiers(), &[512, 1024, 1360]);
}

#[test]
fn shroud_profiles_map_to_the_shared_transport_tiers() {
    assert_eq!(ProfileTier::from_shroud_profile("low-latency"), ProfileTier::Low);
    assert_eq!(ProfileTier::from_shroud_profile("balanced"), ProfileTier::Medium);
    assert_eq!(ProfileTier::from_shroud_profile("randomized-lab"), ProfileTier::Medium);
    assert_eq!(ProfileTier::from_shroud_profile("bulk"), ProfileTier::High);
    assert_eq!(ProfileTier::from_shroud_profile("extreme-lab"), ProfileTier::High);
}

#[test]
fn every_profile_round_trips_and_stays_bounded() {
    for profile in [ProfileTier::Low, ProfileTier::Medium, ProfileTier::High] {
        let payload = vec![0x5a; 73];
        let framed = apply_profile(profile, &payload).expect("apply profile");
        assert!(framed.len() <= max_frame_len(profile));
        assert_eq!(remove_profile(profile, &framed).expect("remove profile"), payload);
    }
}

#[test]
fn low_profile_jitter_stays_inside_the_small_bound() {
    for _ in 0..128 {
        let framed = apply_profile(ProfileTier::Low, b"ssh").expect("apply low profile");
        assert!((128..=263).contains(&framed.len()));
    }
}

#[test]
fn malformed_profile_marker_fails_closed() {
    let mut framed = apply_profile(ProfileTier::Medium, b"payload").expect("apply profile");
    framed[5..7].copy_from_slice(&u16::MAX.to_be_bytes());
    assert!(remove_profile(ProfileTier::Medium, &framed).is_err());
}

#[test]
fn unprofiled_payload_remains_compatible() {
    assert_eq!(remove_profile(ProfileTier::Medium, b"legacy").expect("legacy payload"), b"legacy");
}

#[test]
fn profile_names_ids_and_parsing() {
    assert_eq!(ProfileTier::Low.as_str(), "low");
    assert_eq!(ProfileTier::Medium.as_str(), "medium");
    assert_eq!(ProfileTier::High.as_str(), "high");
    assert_eq!(ProfileTier::Low.id(), 0);
    assert_eq!(ProfileTier::Medium.id(), 1);
    assert_eq!(ProfileTier::High.id(), 2);
    assert_eq!(ProfileTier::parse_name("  LOW-Latency ").unwrap(), ProfileTier::Low);
    assert_eq!(ProfileTier::parse_name("Balanced").unwrap(), ProfileTier::Medium);
    assert_eq!(ProfileTier::parse_name("extreme").unwrap(), ProfileTier::High);
    assert_eq!("bulk".parse::<ProfileTier>().unwrap(), ProfileTier::High);
    match ProfileTier::parse_name("huge") {
        Err(shph::error::ShphError::Obfuscation(m)) => assert_eq!(m, "unsupported padding profile: huge"),
        other => panic!("unexpected {:?}", other),
    }
}

#[test]
fn oversized_payloads_and_bad_envelopes_are_refused_with_reasons() {
    match apply_profile(ProfileTier::Low, &vec![1u8; 250]) {
        Err(shph::error::ShphError::Obfuscation(m)) => {
            assert_eq!(m, "low profile cannot carry a 250-byte payload")
        }
        other => panic!("unexpected {:?}", other),
    }
    let framed = apply_profile(ProfileTier::High, b"abc").expect("apply");
    assert_eq!(framed.len(), 512);
    assert_eq!(&framed[0..7], &[0x53, 0x50, 0x41, 0x44, 2, 0, 3]);
    assert!(matches!(
        remove_profile(ProfileTier::Medium, &framed),
        Err(shph::error::ShphError::Obfuscation(m)) if m == "profile envelope tier mismatch"
    ));
    let mut short = framed.clone();
    short.truncate(511);
    assert!(matches!(
        remove_profile(ProfileTier::High, &short),
        Err(shph::error::ShphError::Obfuscation(m)) if m == "profile envelope size is not a canonical tier"
    ));
}

#[test]
fn exactly_filling_payload_needs_no_padding() {
    let payload = vec![0x42u8; 128 - 7];
    let frame = apply_profile(ProfileTier::Medium, &payload).expect("no randomness needed");
    assert_eq!(frame.len(), 128);
    assert_eq!(&frame[..4], b"SPAD");
    assert_eq!(frame[4], 1);
    assert_eq!(u16::from_be_bytes([frame[5], frame[6]]) as usize, payload.len());
    assert_eq!(&frame[7..], payload.as_slice());
    let high = apply_profile(ProfileTier::High, &vec![1u8; 512 - 7]).expect("frame");
    assert_eq!(high.len(), 512);
}

#[test]
fn low_tier_jitter_follows_the_random_byte() {
    let payload = b"hello".to_vec();
    for random in [0u8, 3, 7, 8, 13, 255] {
        let jitter = (random % 8) as usize;
        let tail = vec![0xeeu8; 128 + jitter - 7 - payload.len()];
        let frame = apply_profile_with_randomness(ProfileTier::Low, &payload, random, &tail).expect("frame");
        assert_eq!(frame.len(), 128 + jitter);
        assert_eq!(&frame[7..7 + payload.len()], payload.as_slice());
        assert_eq!(&frame[7 + payload.len()..], tail.as_slice());
        assert_eq!(remove_profile(ProfileTier::Low, &frame).expect("unframe"), payload);
    }
    let medium_tail = vec![1u8; 128 - 7 - payload.len()];
    let medium = apply_profile_with_randomness(ProfileTier::Medium, &payload, 200, &medium_tail).expect("frame");
    assert_eq!(medium.len(), 128);
}
