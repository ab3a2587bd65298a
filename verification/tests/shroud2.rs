use shph::shroud2::{
    decode_batch_payload, decode_batched_datagram, decode_datagram, encode_batch_payload,
    encode_batched_datagram, encode_datagram, encode_datagram_with_padding, size_for_draw,
    validate_path_mtu, MorphologyBatchPolicy, MorphologyBatchPushResult, MorphologyBatcher,
    MorphologyEngine, MorphologyProfile, MAX_BATCH_MESSAGES, MAX_BATCH_WAIT_NANOS,
    MORPHOLOGY_HEADER_BYTES,
};
use std::time::Duration;

fn nanos(d: Duration) -> u64 {
    d.as_nanos() as u64
}

#[test]
fn seeded_engine_stays_within_mtu_and_preserves_capacity() {
    let mut engine = MorphologyEngine::from_seed(MorphologyProfile::WebBrowsingLab, 7);
    for payload_len in [1, 128, 1_000, 1_500] {
        let target = engine.target_size(payload_len, 2_000).expect("target");
        assert!(target >= payload_len + MORPHOLOGY_HEADER_BYTES);
        assert!(target <= 2_000);
    }
}

#[test]
fn low_latency_prefers_small_classes_without_losing_shape_diversity() {
    let mut engine = MorphologyEngine::from_seed(MorphologyProfile::LowLatency, 7);
    let mut counts = [0usize; 4];
    for _ in 0..10_000 {
        match engine.target_size(1, 2_000).expect("target") {
            128 => counts[0] += 1,
            256 => counts[1] += 1,
            512 => counts[2] += 1,
            1_024 => counts[3] += 1,
            target => panic!("unexpected low-latency target size: {target}"),
        }
    }
    assert!(counts[0] > counts[1]);
    assert!(counts[1] > counts[2]);
    assert!(counts[2] > counts[3]);
    assert!(counts[3] > 0);
}

#[test]
fn low_latency_weighting_only_uses_classes_that_fit() {
    let mut engine = MorphologyEngine::from_seed(MorphologyProfile::LowLatency, 7);
    for _ in 0..100 {
        let target = engine.target_size(300, 2_000).expect("target");
        assert!(matches!(target, 512 | 1_024));
    }
}

#[test]
fn web_and_video_profiles_keep_discrete_shape_diversity() {
    for (profile, classes) in [
        (MorphologyProfile::WebBrowsingLab, &[384, 768, 1_024, 1_280, 1_536][..]),
        (MorphologyProfile::VideoStreamingLab, &[1_024, 1_280, 1_536, 2_048, 4_096][..]),
    ] {
        let mut engine = MorphologyEngine::from_seed(profile, 7);
        let mut counts = vec![0usize; classes.len()];
        for _ in 0..10_000 {
            let target = engine.target_size(1, 8_192).expect("target");
            let index = classes
                .iter()
                .position(|class| *class == target)
                .expect("target must remain in the profile's discrete classes");
            counts[index] += 1;
        }
        assert!(counts.iter().all(|count| *count > 0));
        assert!(counts[0] > counts[classes.len() - 1]);
    }
}

#[test]
fn weighted_profiles_fold_large_classes_into_the_mtu_bucket() {
    for (profile, classes) in [
        (MorphologyProfile::WebBrowsingLab, &[384, 768, 1_024, 1_280, 1_472][..]),
        (MorphologyProfile::VideoStreamingLab, &[1_024, 1_280, 1_472][..]),
    ] {
        let mut engine = MorphologyEngine::from_seed(profile, 11);
        for _ in 0..1_000 {
            let target = engine.target_size(1, 1_472).expect("target");
            assert!(classes.contains(&target));
        }
    }
}

#[test]
fn envelope_round_trip_preserves_payload() {
    let payload = b"authenticated lab payload";
    let encoded = encode_datagram(payload, 256, 512).expect("encode");
    assert_eq!(decode_datagram(&encoded, 512).expect("decode"), payload);
}

#[test]
fn batch_envelope_round_trip_preserves_message_boundaries() {
    let messages = vec![b"one".to_vec(), b"two".to_vec(), b"interactive-message".to_vec()];
    let mut engine = MorphologyEngine::from_seed(MorphologyProfile::LowLatency, 19);
    let encoded = encode_batched_datagram(&mut engine, &messages, 512).expect("batch encode");
    assert_eq!(decode_batched_datagram(&encoded, 512).expect("batch decode"), messages);
    let payload = encode_batch_payload(&messages, 512).expect("payload encode");
    assert_eq!(decode_batch_payload(&payload).expect("payload decode"), messages);
}

#[test]
fn batcher_flushes_at_count_and_mtu_boundaries() {
    let mut batcher = MorphologyBatcher::new();
    for _ in 0..MAX_BATCH_MESSAGES {
        assert_eq!(batcher.push(b"message", 512, 0).expect("batch push"), MorphologyBatchPushResult::Buffered);
    }
    let flushed = match batcher.push(b"message", 512, 0).expect("count boundary") {
        MorphologyBatchPushResult::Flush(messages) => messages,
        MorphologyBatchPushResult::Buffered => panic!("count boundary did not flush"),
    };
    assert_eq!(flushed.len(), MAX_BATCH_MESSAGES);
    assert_eq!(batcher.len(), 1);

    let mut mtu_batcher = MorphologyBatcher::new();
    assert_eq!(
        mtu_batcher.push(&[0u8; 200], 256, 0).expect("first MTU push"),
        MorphologyBatchPushResult::Buffered
    );
    let flushed = match mtu_batcher.push(&[1u8; 50], 256, 0).expect("MTU boundary") {
        MorphologyBatchPushResult::Flush(messages) => messages,
        MorphologyBatchPushResult::Buffered => panic!("MTU boundary did not flush"),
    };
    assert_eq!(flushed, vec![vec![0u8; 200]]);
    assert_eq!(mtu_batcher.len(), 1);
}

#[test]
fn recommended_batch_policies_bound_interactive_latency() {
    assert_eq!(
        MorphologyBatchPolicy::recommended(MorphologyProfile::LowLatency),
        MorphologyBatchPolicy::new(4, nanos(Duration::from_millis(2))).expect("low-latency policy")
    );
    assert_eq!(
        MorphologyBatchPolicy::recommended(MorphologyProfile::WebBrowsingLab),
        MorphologyBatchPolicy::new(8, nanos(Duration::from_millis(10))).expect("web policy")
    );
    assert_eq!(
        MorphologyBatchPolicy::recommended(MorphologyProfile::VideoStreamingLab),
        MorphologyBatchPolicy::new(8, nanos(Duration::from_millis(20))).expect("video policy")
    );
    assert!(MorphologyBatchPolicy::new(0, nanos(Duration::ZERO)).is_err());
    assert!(MorphologyBatchPolicy::new(MAX_BATCH_MESSAGES + 1, nanos(Duration::ZERO)).is_err());
    assert!(MorphologyBatchPolicy::new(1, MAX_BATCH_WAIT_NANOS + nanos(Duration::from_nanos(1))).is_err());
}

#[test]
fn batcher_flushes_when_the_latency_budget_expires() {
    let policy = MorphologyBatchPolicy::new(8, nanos(Duration::from_millis(10))).expect("batch policy");
    let mut batcher = MorphologyBatcher::with_policy(policy);
    let started_at = 5_000_000_000u64;
    assert_eq!(batcher.push(b"first", 512, started_at).expect("first push"), MorphologyBatchPushResult::Buffered);
    assert!(!batcher.is_due(started_at + nanos(Duration::from_millis(9))));
    let flushed = match batcher
        .push(b"second", 512, started_at + nanos(Duration::from_millis(10)))
        .expect("deadline push")
    {
        MorphologyBatchPushResult::Flush(messages) => messages,
        MorphologyBatchPushResult::Buffered => panic!("deadline did not flush"),
    };
    assert_eq!(flushed, vec![b"first".to_vec()]);
    assert_eq!(batcher.flush(), Some(vec![b"second".to_vec()]));
}

#[test]
fn batch_decoder_rejects_malformed_or_oversized_batches() {
    assert!(decode_batch_payload(&[0, 1]).is_err());
    assert!(decode_batch_payload(&[0, 0]).is_err());
    assert!(decode_batch_payload(&vec![1u8; 65_529]).is_err());
    let messages = vec![b"message".to_vec(); MAX_BATCH_MESSAGES + 1];
    assert!(encode_batch_payload(&messages, 4_096).is_err());
}

#[test]
fn envelope_rejects_truncation_and_bad_version() {
    let payload = b"payload";
    let encoded = encode_datagram(payload, 64, 128).expect("encode");
    assert!(decode_datagram(&encoded[..encoded.len() - 1], 128).is_err());
    let mut bad = encoded;
    bad[2] = 2;
    assert!(decode_datagram(&bad, 128).is_err());
}

#[test]
fn envelope_rejects_target_below_payload() {
    assert!(encode_datagram(b"payload", 5, 128).is_err());
    assert!(encode_datagram(b"", 64, 128).is_err());
}

#[test]
fn envelope_rejects_declared_size_and_payload_length_mismatch() {
    let mut encoded = encode_datagram(b"payload", 64, 128).expect("encode");
    encoded[5..7].copy_from_slice(&63u16.to_be_bytes());
    assert!(decode_datagram(&encoded, 128).is_err());

    let mut encoded = encode_datagram(b"payload", 64, 128).expect("encode");
    encoded[3..5].copy_from_slice(&58u16.to_be_bytes());
    assert!(decode_datagram(&encoded, 128).is_err());
}

#[test]
fn envelope_rejects_payloads_that_cannot_fit_length_field() {
    let payload = vec![0u8; u16::MAX as usize + 1];
    assert!(encode_datagram(&payload, 65_535, 65_535).is_err());
}

#[test]
fn path_mtu_bounds_are_fail_closed() {
    assert!(validate_path_mtu(0).is_err());
    assert!(validate_path_mtu(6).is_err());
    assert!(validate_path_mtu(65_536).is_err());
    assert!(validate_path_mtu(7).is_ok());
}

#[test]
fn delay_is_bounded_for_each_profile() {
    for profile in [
        MorphologyProfile::LowLatency,
        MorphologyProfile::WebBrowsingLab,
        MorphologyProfile::VideoStreamingLab,
        MorphologyProfile::BulkLab,
    ] {
        let mut engine = MorphologyEngine::from_seed(profile, 9);
        for _ in 0..100 {
            let delay = engine.next_delay();
            assert!(delay <= nanos(Duration::from_millis(8)));
        }
    }
}

#[test]
fn datagram_layout_with_given_padding() {
    let d = encode_datagram_with_padding(b"hi", 12, 64, &[9u8; 12]).expect("encode");
    assert_eq!(d, vec![0x53, 0x32, 1, 0, 2, 0, 12, b'h', b'i', 9, 9, 9]);
    assert_eq!(decode_datagram(&d, 64).expect("decode"), b"hi");
}

#[test]
fn draws_select_weighted_classes() {
    assert_eq!(size_for_draw(MorphologyProfile::LowLatency, 8, 2_000, 0), 128);
    assert_eq!(size_for_draw(MorphologyProfile::LowLatency, 8, 2_000, 64), 128);
    assert_eq!(size_for_draw(MorphologyProfile::LowLatency, 8, 2_000, 65), 256);
    assert_eq!(size_for_draw(MorphologyProfile::LowLatency, 8, 2_000, 99), 1_024);
    assert_eq!(size_for_draw(MorphologyProfile::LowLatency, 307, 2_000, 0), 512);
    assert_eq!(size_for_draw(MorphologyProfile::BulkLab, 8, 4_000, 4), 4_000);
    assert_eq!(size_for_draw(MorphologyProfile::WebBrowsingLab, 8, 1_472, 99), 1_472);
}

#[test]
fn batch_payload_layout_and_limit_messages() {
    let payload = encode_batch_payload(&[b"ab".to_vec(), b"c".to_vec()], 64).expect("encode");
    assert_eq!(payload, vec![0, 2, b'a', b'b', 0, 1, b'c']);
    assert!(matches!(
        encode_batch_payload(&[vec![1u8; 60]], 64),
        Err(shph::error::ShphError::Protocol(m)) if m == "morphology batch exceeds the negotiated datagram limit"
    ));
    assert!(matches!(
        decode_batch_payload(&[0, 5, 1]),
        Err(shph::error::ShphError::Protocol(m)) if m == "morphology batch has a truncated message"
    ));
}

#[test]
fn batcher_timing_and_flush_if_due() {
    let policy = MorphologyBatchPolicy::new(4, 1_000).expect("policy");
    let mut batcher = MorphologyBatcher::with_policy(policy);
    assert_eq!(batcher.time_until_due(0), None);
    assert_eq!(batcher.flush_if_due(10), None);
    batcher.push(b"x", 128, 100).expect("push");
    assert_eq!(batcher.time_until_due(400), Some(700));
    assert_eq!(batcher.flush_if_due(500), None);
    assert_eq!(batcher.flush_if_due(1_100), Some(vec![b"x".to_vec()]));
    assert!(batcher.is_empty());
    assert!(batcher.push(b"", 128, 0).is_err());
}

#[test]
fn sampled_sizes_are_fitted_to_the_envelope_bounds() {
    assert_eq!(shph::shroud2::fit_sampled_size(100, 50, 1200).expect("fit"), 100);
    assert_eq!(shph::shroud2::fit_sampled_size(10, 50, 1200).expect("fit"), 57);
    assert_eq!(shph::shroud2::fit_sampled_size(5000, 50, 1200).expect("fit"), 1200);
    assert!(shph::shroud2::fit_sampled_size(100, 1200, 1200).is_err());
    assert!(shph::shroud2::fit_sampled_size(100, 10, 10).is_err());
}

#[test]
fn engine_seeded_from_the_operating_system_keeps_its_profile() {
    let mut engine = MorphologyEngine::new(MorphologyProfile::BulkLab).expect("OS randomness");
    assert_eq!(engine.profile(), MorphologyProfile::BulkLab);
    let target = engine.target_size(10, 1200).expect("target size");
    assert!(10 + MORPHOLOGY_HEADER_BYTES <= target && target <= 1200);
}

#[test]
fn batching_hands_back_every_message_in_order() {
    let mut batcher = MorphologyBatcher::with_policy(MorphologyBatchPolicy::new(3, 1_000_000_000).expect("policy"));
    let messages: Vec<Vec<u8>> = (1..=10u8).map(|i| vec![i; 40 + i as usize]).collect();
    let mut out: Vec<Vec<u8>> = Vec::new();
    for m in &messages {
        if let MorphologyBatchPushResult::Flush(batch) = batcher.push(m, 200, 0).expect("push") {
            assert!(!batch.is_empty() && batch.len() <= 3);
            assert!(batch.iter().map(|b| 2 + b.len()).sum::<usize>() <= 200 - 7);
            out.extend(batch);
        }
    }
    out.extend(batcher.flush().unwrap_or_default());
    assert_eq!(out, messages);
}
