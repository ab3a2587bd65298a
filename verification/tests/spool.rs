use shph::spool::{poll_step, ClaimOutcome, PollStep};
use shph::error::ShphError;
use shph::mule_quota::DataMuleCandidate;
use shph::spool::{
    check_hello_sender, check_scan_directory, replay_key, sort_candidates_by_sequence, DataMuleReadState,
    DataMuleWriteState, EnvelopeWindow, OfflineMeshCandidate, OfflineMeshReadState, OfflineMeshWriteState,
    QueueEntryAction, ScanEntryAction, SequenceWindow, MAX_FILE_ADAPTER_BYTES,
};

fn mule(path: &str, created: u64, id: &str, from: &str, to: &str) -> DataMuleCandidate {
    DataMuleCandidate {
        path: path.to_string(),
        created_at_unix_ms: created,
        envelope_id: id.to_string(),
        from_node: from.to_string(),
        to_node: to.to_string(),
        file_bytes: 10,
    }
}

#[test]
fn sequence_window_forgets_the_oldest_when_full() {
    let mut window = SequenceWindow::new(2);
    window.mark_seen(1);
    window.mark_seen(2);
    window.mark_seen(2);
    assert!(window.contains(1) && window.contains(2));
    window.mark_seen(3);
    assert!(!window.contains(1));
    assert!(window.contains(2) && window.contains(3));
}

#[test]
fn sequence_window_of_zero_still_holds_one() {
    let mut window = SequenceWindow::new(0);
    window.mark_seen(7);
    assert!(window.contains(7));
    window.mark_seen(8);
    assert!(!window.contains(7));
    assert!(window.contains(8));
}

#[test]
fn replay_keys_separate_sender_and_id() {
    assert_eq!(replay_key("node-a", "env-1"), "node-a\0env-1");
    let mut window = EnvelopeWindow::new();
    window.mark_seen("a", "bc");
    assert!(window.contains("a", "bc"));
    assert!(!window.contains("ab", "c"));
}

#[test]
fn envelope_window_is_bounded() {
    let mut window = EnvelopeWindow::new();
    for i in 0..1025u32 {
        window.mark_seen("peer", &format!("id-{i}"));
    }
    assert!(!window.contains("peer", "id-0"));
    assert!(window.contains("peer", "id-1"));
    assert!(window.contains("peer", "id-1024"));
}

#[test]
fn offline_queue_entries_are_classified() {
    let reader = OfflineMeshReadState::new("local", "peer", "session", 16);
    assert_eq!(reader.entry_action(true, "json", 100), QueueEntryAction::Read);
    assert_eq!(reader.entry_action(true, "json", MAX_FILE_ADAPTER_BYTES + 1), QueueEntryAction::Quarantine);
    assert_eq!(reader.entry_action(true, "txt", 100), QueueEntryAction::Skip);
    assert_eq!(reader.entry_action(false, "json", 100), QueueEntryAction::Skip);
}

#[test]
fn offline_reader_wants_only_fresh_envelopes_of_its_session() {
    let mut reader = OfflineMeshReadState::new("local", "peer", "session", 16);
    assert!(reader.wants("session", "peer", "local", 1));
    assert!(!reader.wants("other", "peer", "local", 1));
    assert!(!reader.wants("session", "local", "peer", 1));
    reader.mark_seen(1);
    assert!(!reader.wants("session", "peer", "local", 1));
    assert!(reader.accepts_claimed("session", "peer", "local", 2, 2));
    assert!(!reader.accepts_claimed("session", "peer", "local", 2, 3));
}

#[test]
fn offline_candidates_are_taken_in_sequence_order() {
    let candidates = vec![
        OfflineMeshCandidate { path: "c".to_string(), sequence: 300 },
        OfflineMeshCandidate { path: "a".to_string(), sequence: 2 },
        OfflineMeshCandidate { path: "b".to_string(), sequence: 256 },
        OfflineMeshCandidate { path: "d".to_string(), sequence: 2 },
    ];
    let sorted = sort_candidates_by_sequence(&candidates);
    let paths: Vec<&str> = sorted.iter().map(|c| c.path.as_str()).collect();
    assert_eq!(paths, vec!["a", "d", "b", "c"]);
}

#[test]
fn data_mule_scan_entries_are_classified() {
    let reader = DataMuleReadState::new("local", None, 1000);
    assert_eq!(reader.max_file_bytes, 1000);
    assert_eq!(reader.entry_action(true, false, "shph", 10), ScanEntryAction::Skip);
    assert_eq!(reader.entry_action(false, true, "", 10), ScanEntryAction::Descend);
    assert_eq!(reader.entry_action(false, false, "json", 10), ScanEntryAction::Skip);
    assert_eq!(reader.entry_action(false, false, "shph", 1001), ScanEntryAction::Quarantine);
    assert_eq!(reader.entry_action(false, false, "shph", 1000), ScanEntryAction::Read);
    assert_eq!(DataMuleReadState::new("local", None, 0).max_file_bytes, 1);
    assert_eq!(DataMuleReadState::new("local", None, u64::MAX).max_file_bytes, MAX_FILE_ADAPTER_BYTES);
}

#[test]
fn data_mule_scan_directories_are_checked() {
    assert!(check_scan_directory(true, 16).is_ok());
    assert!(matches!(check_scan_directory(false, 0), Err(ShphError::Protocol(_))));
    assert!(matches!(check_scan_directory(true, 17), Err(ShphError::ResourceExhausted(_))));
}

#[test]
fn data_mule_hello_sender_must_match() {
    assert!(check_hello_sender("id", "id").is_ok());
    assert!(matches!(check_hello_sender("id", "other"), Err(ShphError::Auth(_))));
}

#[test]
fn data_mule_reader_selects_fresh_routed_candidates_oldest_first() {
    let mut reader = DataMuleReadState::new("me", Some("peer"), 1000);
    reader.mark_seen("peer", "old");
    let candidates = vec![
        mule("3", 30, "c", "peer", "me"),
        mule("1", 10, "old", "peer", "me"),
        mule("2", 20, "b", "peer", "me"),
        mule("4", 5, "x", "stranger", "me"),
        mule("5", 5, "y", "peer", "someone-else"),
        mule("6", 20, "a", "peer", "me"),
    ];
    let selected = reader.select_candidates(&candidates);
    let paths: Vec<&str> = selected.iter().map(|c| c.path.as_str()).collect();
    assert_eq!(paths, vec!["6", "2", "3"]);
}

#[test]
fn data_mule_reader_adopts_the_first_verified_sender() {
    let mut reader = DataMuleReadState::new("me", None, 1000);
    assert!(reader.routes("anyone", "me"));
    assert!(!reader.routes("anyone", "you"));
    reader.adopt_peer("peer");
    assert!(!reader.routes("anyone", "me"));
    assert!(reader.routes("peer", "me"));
    reader.adopt_peer("other");
    assert_eq!(reader.peer_filter.as_deref(), Some("peer"));
}

#[test]
fn data_mule_claimed_envelope_must_match_its_listing() {
    let mut reader = DataMuleReadState::new("me", None, 1000);
    let listed = mule("p", 10, "id", "peer", "me");
    assert!(reader.accepts_claimed(10, "id", "peer", "me", &listed));
    assert!(!reader.accepts_claimed(11, "id", "peer", "me", &listed));
    assert!(!reader.accepts_claimed(10, "id2", "peer", "me", &listed));
    reader.mark_seen("peer", "id");
    assert!(!reader.accepts_claimed(10, "id", "peer", "me", &listed));
}

#[test]
fn offline_writer_numbers_envelopes() {
    let mut writer = OfflineMeshWriteState::new("me", "peer");
    assert_eq!(writer.next_envelope(1700), (0, "1700-0.json".to_string()));
    assert_eq!(writer.next_envelope(1701), (1, "1701-1.json".to_string()));
    writer.next_sequence = u64::MAX;
    assert_eq!(writer.next_envelope(5).0, u64::MAX);
    assert_eq!(writer.next_sequence, u64::MAX);
    assert!(writer.check_envelope_size(262_144).is_ok());
    assert!(matches!(writer.check_envelope_size(262_145), Err(ShphError::Protocol(_))));
}

#[test]
fn data_mule_writer_enforces_file_and_outbox_limits() {
    let mut writer = DataMuleWriteState::new("me", "peer", 100, 50);
    assert_eq!(writer.max_file_bytes, 100);
    assert_eq!(writer.max_total_bytes, 100);
    assert_eq!(writer.next_envelope(42), (0, "42-0".to_string()));
    assert_eq!(writer.next_envelope(43), (1, "43-1".to_string()));
    assert!(writer.check_envelope_size(100).is_ok());
    assert!(matches!(writer.check_envelope_size(101), Err(ShphError::Protocol(_))));
    assert!(writer.check_outbox_quota(60, 40).is_ok());
    match writer.check_outbox_quota(61, 40) {
        Err(ShphError::ResourceExhausted(text)) => {
            assert_eq!(text, "data-mule outbox quota exhausted (61 bytes of 100 configured)")
        },
        other => panic!("unexpected result {other:?}"),
    }
    assert!(writer.check_outbox_quota(u64::MAX, 1).is_err());
}

#[test]
fn claimed_payloads_are_decoded_only_when_accepted() {
    let reader = OfflineMeshReadState::new("local", "peer", "session", 16);
    assert_eq!(reader.claimed_payload("session", "peer", "local", 3, 3, "aGk="), Some(b"hi".to_vec()));
    assert_eq!(reader.claimed_payload("session", "peer", "local", 3, 4, "aGk="), None);
    assert_eq!(reader.claimed_payload("session", "peer", "local", 3, 3, "not base64!"), None);

    let reader = DataMuleReadState::new("me", None, 1000);
    let listed = mule("p", 10, "id", "peer", "me");
    assert_eq!(reader.claimed_payload(10, "id", "peer", "me", &listed, "aGVsbG8="), Some(b"hello".to_vec()));
    assert_eq!(reader.claimed_payload(10, "id", "peer", "you", &listed, "aGVsbG8="), None);
    assert_eq!(reader.claimed_payload(10, "id", "peer", "me", &listed, "%%%"), None);
}

#[test]
fn poll_loop_steps_follow_the_claim_outcome() {
    assert!(matches!(poll_step(ClaimOutcome::NotClaimed), PollStep::NextCandidate));
    assert!(matches!(poll_step(ClaimOutcome::Vanished), PollStep::NextCandidate));
    assert!(matches!(poll_step(ClaimOutcome::ReadRefused), PollStep::QuarantineThenNext));
    assert!(matches!(poll_step(ClaimOutcome::Malformed), PollStep::QuarantineThenNext));
    assert!(matches!(poll_step(ClaimOutcome::Refused), PollStep::QuarantineThenNext));
    assert!(matches!(poll_step(ClaimOutcome::Decoded), PollStep::Deliver));
    assert!(matches!(
        poll_step(ClaimOutcome::ReadFailed(ShphError::Io("denied".to_string()))),
        PollStep::Fail(ShphError::Io(_))
    ));
}
