use shph::mule_quota::{trim_data_mule_candidates_to_quota, DataMuleCandidate};

fn candidate(path: &str, created: u64, id: &str, bytes: u64) -> DataMuleCandidate {
    DataMuleCandidate {
        path: path.to_string(),
        created_at_unix_ms: created,
        envelope_id: id.to_string(),
        from_node: "a".to_string(),
        to_node: "b".to_string(),
        file_bytes: bytes,
    }
}

#[test]
fn outbox_within_quota_is_left_alone() {
    let mut c = vec![candidate("/o/2", 20, "x", 10), candidate("/o/1", 10, "y", 10)];
    let removed = trim_data_mule_candidates_to_quota(&mut c, 20);
    assert!(removed.is_empty());
    assert_eq!(c[0].path, "/o/2");
    assert_eq!(c.len(), 2);
}

#[test]
fn data_mule_outbox_enforces_aggregate_quota() {
    let mut c = vec![
        candidate("/o/c", 30, "c", 100),
        candidate("/o/a2", 10, "b", 100),
        candidate("/o/a1", 10, "a", 100),
        candidate("/o/d", 40, "d", 100),
    ];
    let removed = trim_data_mule_candidates_to_quota(&mut c, 250);
    assert_eq!(removed, vec!["/o/a1".to_string(), "/o/a2".to_string()]);
    let kept: Vec<&str> = c.iter().map(|x| x.path.as_str()).collect();
    assert_eq!(kept, vec!["/o/c", "/o/d"]);
    let total: u64 = c.iter().map(|x| x.file_bytes).sum();
    assert!(total <= 250);
}

#[test]
fn outbox_quota_of_zero_empties_it() {
    let mut c = vec![candidate("/o/1", 1, "a", 5), candidate("/o/0", 0, "a", 0)];
    let removed = trim_data_mule_candidates_to_quota(&mut c, 0);
    assert_eq!(removed, vec!["/o/0".to_string(), "/o/1".to_string()]);
    assert!(c.is_empty());
}
