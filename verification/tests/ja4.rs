use shph::ja4::{
    bounded_server_name, bounded_values, Ja4ClientHello, Ja4HelloFields, Ja4Observation,
    Ja4ObservationCoverage, Ja4Observer, Ja4ObserverConfig, Ja4TlsVersion, Ja4Transport,
    RecordingJa4Observer, MAX_OBSERVATIONS, MAX_OBSERVED_SERVER_NAME_BYTES,
};

#[test]
fn computes_official_ja4_example() {
    let client_hello = Ja4ClientHello {
        transport: Ja4Transport::Tcp,
        tls_version: Ja4TlsVersion::Tls1_3,
        server_name_present: true,
        cipher_suites: vec![
            0x1301, 0x1302, 0x1303, 0xc02b, 0xc02f, 0xc02c, 0xc030, 0xcca9, 0xcca8, 0xc013, 0xc014,
            0x009c, 0x009d, 0x002f, 0x0035,
        ],
        extension_types: vec![
            0x001b, 0x0000, 0x0033, 0x0010, 0x4469, 0x0017, 0x002d, 0x000d, 0x0005, 0x0023, 0x0012,
            0x002b, 0xff01, 0x000b, 0x000a, 0x0015,
        ],
        first_alpn: Some(b"h2".to_vec()),
        signature_schemes: vec![0x0403, 0x0804, 0x0401, 0x0503, 0x0805, 0x0501, 0x0806, 0x0601],
    };
    assert_eq!(client_hello.fingerprint(), "t13d1516h2_8daaf6152771_e5627efa2ab1");
}

#[test]
fn filters_grease_and_preserves_raw_order() {
    let client_hello = Ja4ClientHello {
        transport: Ja4Transport::Quic,
        tls_version: Ja4TlsVersion::Tls1_3,
        server_name_present: false,
        cipher_suites: vec![0x1a1a, 0x1301, 0x0a0a],
        extension_types: vec![0x2a2a, 0x0010, 0x0000, 0x0033],
        first_alpn: Some(vec![0xab, 0xcd]),
        signature_schemes: vec![0x0804],
    };
    assert!(client_hello.fingerprint().starts_with("q13i0103ad_"));
    assert!(client_hello.raw_fingerprint().starts_with("q13i0103ad_"));
    assert!(!client_hello.raw_fingerprint().contains("1a1a"));
    assert!(!client_hello.raw_fingerprint().contains("2a2a"));
}

#[test]
fn handles_empty_and_non_ascii_alpn() {
    let mut client_hello = Ja4ClientHello {
        transport: Ja4Transport::Quic,
        tls_version: Ja4TlsVersion::Tls1_3,
        server_name_present: true,
        cipher_suites: vec![0x1301],
        extension_types: vec![0x0000, 0x0010],
        first_alpn: None,
        signature_schemes: Vec::new(),
    };
    assert!(client_hello.fingerprint().starts_with("q13d010200_"));
    client_hello.first_alpn = Some(vec![0x20, 0x61]);
    assert!(client_hello.fingerprint().starts_with("q13d010221_"));
}

#[test]
fn recorder_is_bounded() {
    assert!(RecordingJa4Observer::new(0).is_err());
    assert!(RecordingJa4Observer::new(MAX_OBSERVATIONS + 1).is_err());
    let recorder = RecordingJa4Observer::new(1).expect("recorder");
    assert!(recorder.snapshot().is_empty());
}

#[test]
fn included_server_name_is_bounded_without_breaking_utf8() {
    let value = "é".repeat(200);
    let (bounded, truncated) = bounded_server_name(Some(&value), true);
    assert!(truncated);
    let bounded = bounded.expect("bounded server name");
    assert!(bounded.len() <= MAX_OBSERVED_SERVER_NAME_BYTES);
    assert!(bounded.is_char_boundary(bounded.len()));
    assert_eq!(bounded_server_name(Some("example.test"), false), (None, false));
}

#[test]
fn parses_wire_versions() {
    assert_eq!(Ja4TlsVersion::from_wire(0x0304), Ja4TlsVersion::Tls1_3);
    assert_eq!(Ja4TlsVersion::from_wire(0x1234), Ja4TlsVersion::Unknown);
}

#[test]
fn raw_fingerprint_lists_values_in_order() {
    let client_hello = Ja4ClientHello {
        transport: Ja4Transport::Dtls,
        tls_version: Ja4TlsVersion::Tls1_2,
        server_name_present: false,
        cipher_suites: vec![0x1302, 0x1301],
        extension_types: vec![0x000d, 0x0000],
        first_alpn: Some(b"http/1.1".to_vec()),
        signature_schemes: vec![0x0804, 0x0403],
    };
    assert_eq!(
        client_hello.raw_fingerprint(),
        "d12i0202h1_1302,1301_000d,0000_0804,0403"
    );
    let texts = client_hello.fingerprint_texts();
    assert_eq!(texts.0, "1301,1302");
    assert_eq!(texts.1, "000d_0804,0403");
    let digest = [0xabu8; 32];
    assert_eq!(
        client_hello.fingerprint_from_digests(&digest, &digest),
        "d12i0202h1_abababababab_abababababab"
    );
}

#[test]
fn recorder_keeps_the_newest_observations() {
    let mut recorder = RecordingJa4Observer::new(2).expect("recorder");
    let hello = |name: &str| Ja4HelloFields {
        server_name: Some(name.to_string()),
        cipher_suites: vec![0x1301],
        signature_schemes: vec![0x0804],
        named_groups: None,
        alpn: Some(vec![b"h3".to_vec()]),
    };
    let config = Ja4ObserverConfig { include_server_name: true };
    for name in ["a.test", "b.test", "c.test"] {
        recorder.observe(Ja4Observation::from_client_hello(&hello(name), config));
    }
    let snapshot = recorder.snapshot();
    assert_eq!(snapshot.len(), 2);
    assert_eq!(snapshot[0].server_name.as_deref(), Some("b.test"));
    assert_eq!(snapshot[1].server_name.as_deref(), Some("c.test"));
    assert_eq!(snapshot[1].coverage, Ja4ObservationCoverage::PublicRustlsSubset);
    assert_eq!(snapshot[1].known_extension_types, vec![0x0000, 0x0010]);
    assert!(snapshot[1].partial_fingerprint.starts_with("q13d0102h3_"));
    assert_eq!(snapshot[1].metadata_sha256.len(), 64);
    assert!(!snapshot[1].truncated);
}

#[test]
fn long_lists_are_bounded() {
    let values: Vec<u16> = (0..200).collect();
    let (kept, truncated) = bounded_values(&values);
    assert!(truncated);
    assert_eq!(kept.len(), 128);
    assert_eq!(kept[127], 127);
}

#[test]
fn snapshot_copies_every_field_of_the_recorded_observations() {
    let mut recorder = RecordingJa4Observer::new(4).expect("recorder");
    let fields = Ja4HelloFields {
        server_name: Some("x.test".to_string()),
        cipher_suites: vec![0x1301, 0x1302],
        signature_schemes: vec![0x0804],
        named_groups: Some(vec![0x001d]),
        alpn: Some(vec![b"h3".to_vec(), b"hq".to_vec()]),
    };
    let observation = Ja4Observation::from_client_hello(&fields, Ja4ObserverConfig { include_server_name: true });
    recorder.record(observation.clone());
    let snapshot = recorder.snapshot();
    assert_eq!(snapshot, vec![observation]);
}

#[test]
fn fingerprint_ignores_grease_and_list_order() {
    let base = Ja4ClientHello {
        transport: Ja4Transport::Tcp,
        tls_version: Ja4TlsVersion::Tls1_3,
        server_name_present: true,
        cipher_suites: vec![0x1301, 0x1302, 0xc02b],
        extension_types: vec![0x0000, 0x0010, 0x000d, 0x002b],
        first_alpn: Some(b"h2".to_vec()),
        signature_schemes: vec![0x0403, 0x0804],
    };
    let shuffled = Ja4ClientHello {
        transport: Ja4Transport::Tcp,
        tls_version: Ja4TlsVersion::Tls1_3,
        server_name_present: true,
        cipher_suites: vec![0x0a0a, 0xc02b, 0x1302, 0x1301],
        extension_types: vec![0x002b, 0x3a3a, 0x000d, 0x0010, 0x0000],
        first_alpn: Some(b"h2".to_vec()),
        signature_schemes: vec![0x0403, 0xfafa, 0x0804],
    };
    let f = base.fingerprint();
    assert_eq!(f, shuffled.fingerprint());
    assert_eq!(f.len(), 36);
    assert_eq!(f.as_bytes()[10], b'_');
    assert_eq!(f.as_bytes()[23], b'_');
}
