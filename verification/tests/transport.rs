use shph::error::ShphError;
use shph::transport::{
    account_candidate_memory, account_scan_bytes, account_scan_entry, base64_encoded_len, data_mule_envelope_expired,
    frame_quic_payload, max_plaintext_for_file_adapter, quic_frame_payload, tcp_frame_len,
    validate_file_adapter_payload, validate_quic_payload, validate_tcp_payload, HelloLineReader, LineProgress,
    TransportMode,
    MAX_QUEUE_SCAN_ENTRIES, MAX_TCP_PAYLOAD_BYTES,
};

#[test]
fn transport_mode_parses_supported_values() {
    assert_eq!(TransportMode::parse("tcp").unwrap(), TransportMode::Tcp);
    assert_eq!(TransportMode::parse("QUIC").unwrap(), TransportMode::Quic);
    assert_eq!(TransportMode::parse("quic-std").unwrap(), TransportMode::QuicStandard);
    assert_eq!(TransportMode::parse("Offline-Mesh").unwrap(), TransportMode::OfflineMesh);
    assert_eq!(TransportMode::parse("data_mule").unwrap(), TransportMode::DataMule);
    assert!(TransportMode::parse("carrier-pigeon").is_err());
}

#[test]
fn tcp_sender_rejects_payload_that_would_exceed_frame_limit() {
    assert!(validate_tcp_payload(&vec![0u8; MAX_TCP_PAYLOAD_BYTES]).is_ok());
    assert!(validate_tcp_payload(&vec![0u8; MAX_TCP_PAYLOAD_BYTES + 1]).is_err());
    assert!(validate_quic_payload(&vec![0u8; 16_353]).is_err());
}

#[test]
fn frames_round_trip_and_reject_bad_lengths() {
    let frame = frame_quic_payload(b"sealed").expect("frame");
    assert_eq!(frame, vec![0, 0, 0, 6, b's', b'e', b'a', b'l', b'e', b'd']);
    assert_eq!(quic_frame_payload(&frame, frame.len()).expect("payload"), b"sealed");
    assert!(quic_frame_payload(&frame, frame.len() - 1).is_err());
    assert!(quic_frame_payload(&[0, 0, 0, 0], 4).is_err());
    assert!(frame_quic_payload(b"").is_err());
    assert_eq!(tcp_frame_len([0, 1, 0, 0]).unwrap(), 65_536);
    assert!(tcp_frame_len([0, 1, 0, 1]).is_err());
}

#[test]
fn envelope_age_and_scan_budgets() {
    assert!(!data_mule_envelope_expired(1_000, 1_500, 600));
    assert!(data_mule_envelope_expired(1_000, 1_700, 600));
    assert!(data_mule_envelope_expired(2_700, 2_000, 600));
    let mut scanned = MAX_QUEUE_SCAN_ENTRIES - 1;
    assert!(account_scan_entry(&mut scanned).is_ok());
    assert!(account_scan_entry(&mut scanned).is_err());
    let mut bytes = u64::MAX - 1;
    assert!(account_scan_bytes(&mut bytes, 10).is_err());
    assert_eq!(bytes, u64::MAX);
}

#[test]
fn file_adapter_sender_rejects_payload_before_encryption_bound() {
    let payload = vec![0u8; 4097];
    assert!(validate_file_adapter_payload(&payload, 4096, 4096).is_err());
    assert!(validate_file_adapter_payload(&payload[..4096], 4096, 4096).is_ok());
}

#[test]
fn file_adapter_capacity_is_the_largest_fitting_plaintext() {
    let fixed = 200usize;
    let capacity = max_plaintext_for_file_adapter(4096, fixed);
    assert!(capacity < 4096);
    assert!(fixed + base64_encoded_len(capacity + 28) <= 4096);
    assert!(fixed + base64_encoded_len(capacity + 1 + 28) > 4096);
    assert_eq!(capacity, 2894);
    assert_eq!(max_plaintext_for_file_adapter(100, 200), 0);
    assert_eq!(max_plaintext_for_file_adapter(4096, 4096), 0);
    assert_eq!(base64_encoded_len(0), 0);
    assert_eq!(base64_encoded_len(1), 4);
    assert_eq!(base64_encoded_len(3), 4);
    assert_eq!(base64_encoded_len(4), 8);
    assert_eq!(base64_encoded_len(usize::MAX), usize::MAX);
}

#[test]
fn candidate_memory_is_charged_and_bounded() {
    let mut memory = 0usize;
    assert!(account_candidate_memory(&mut memory, "/queue/a.json", &["session", "from", "to"]).is_ok());
    assert_eq!(memory, 128 + 13 + 7 + 4 + 2);
    let long = "x".repeat(1025);
    let before = memory;
    assert!(matches!(
        account_candidate_memory(&mut memory, "/queue/b.json", &[long.as_str()]),
        Err(ShphError::Protocol(_))
    ));
    assert_eq!(memory, before);
    let mut nearly_full = 4 * 1024 * 1024 - 100;
    assert!(matches!(
        account_candidate_memory(&mut nearly_full, "/queue/c.json", &["a"]),
        Err(ShphError::ResourceExhausted(_))
    ));
}

fn feed(reader: &mut HelloLineReader, bytes: &[u8]) -> Result<Option<(Vec<u8>, usize)>, ShphError> {
    for (i, b) in bytes.iter().enumerate() {
        if let LineProgress::Line(line) = reader.push_byte(*b)? {
            return Ok(Some((line, i + 1)));
        }
    }
    Ok(None)
}

#[test]
fn tcp_line_reader_preserves_pipelined_followup_bytes() {
    let stream = b"{\"hello\":1}\r\n\x00\x00\x00\x05PQCT!";
    let mut reader = HelloLineReader::new(64);
    let (line, consumed) = feed(&mut reader, stream).expect("line").expect("complete line");
    assert_eq!(line, b"{\"hello\":1}".to_vec());
    assert_eq!(&stream[consumed..], b"\x00\x00\x00\x05PQCT!");
}

#[test]
fn tcp_line_reader_bounds_and_end_of_stream() {
    let mut reader = HelloLineReader::new(4);
    assert!(matches!(feed(&mut reader, b"abcde\n"), Err(ShphError::Protocol(_))));
    let mut reader = HelloLineReader::new(4);
    assert!(matches!(feed(&mut reader, b"abcdef"), Err(ShphError::Protocol(_))));
    let mut reader = HelloLineReader::new(4);
    assert_eq!(feed(&mut reader, b"abcd\n").expect("line").expect("line").0, b"abcd".to_vec());
    let mut reader = HelloLineReader::new(4);
    assert_eq!(feed(&mut reader, b"abc\r\n").expect("line").expect("line").0, b"abc".to_vec());
    let mut reader = HelloLineReader::new(4);
    assert!(matches!(feed(&mut reader, b"abcd\r\n"), Err(ShphError::Protocol(_))));
    let empty = HelloLineReader::new(4);
    assert!(matches!(empty.end_of_stream(), ShphError::ConnectionClosed));
    let mut partial = HelloLineReader::new(4);
    assert!(feed(&mut partial, b"ab").expect("pending").is_none());
    assert!(matches!(partial.end_of_stream(), ShphError::Protocol(_)));
}
