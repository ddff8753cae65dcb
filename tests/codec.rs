use backend_comparison::codec::{deserialize, serialize};
use backend_comparison::engine::Measurement;
use backend_comparison::results::{CellFailure, Entry, Outcome, ResultSet};

fn sample_set() -> ResultSet {
    let mut rs = ResultSet::new(1718000000, "bench-host".to_string(), "9f1c2e".to_string());
    rs.record(Measurement {
        spec_name: "unary".to_string(),
        backend_id: "wgpu".to_string(),
        durations: vec![120, 95, 97, u64::MAX, 0],
        device_sync_included: true,
    });
    rs.insert_entry(Entry {
        spec_name: "unary".to_string(),
        backend_id: "tch-gpu".to_string(),
        outcome: Outcome::Failed(CellFailure::IsolationFailure),
    });
    rs.record(Measurement {
        spec_name: "matmul".to_string(),
        backend_id: "ndarray-é".to_string(),
        durations: vec![],
        device_sync_included: false,
    });
    rs
}

#[test]
fn round_trip_keeps_samples_in_order() {
    let rs = sample_set();
    let bytes = serialize(&rs);
    let back = deserialize(&bytes).ok().unwrap();
    assert_eq!(back.timestamp, 1718000000);
    assert_eq!(back.host, "bench-host");
    assert_eq!(back.git_revision, "9f1c2e");
    assert_eq!(back.entries.len(), 3);
    match &back.entries[0].outcome {
        Outcome::Succeeded(m) => {
            assert_eq!(m.durations, vec![120, 95, 97, u64::MAX, 0]);
            assert!(m.device_sync_included);
            assert_eq!(m.spec_name, "unary");
            assert_eq!(m.backend_id, "wgpu");
        }
        Outcome::Failed(_) => panic!("expected a measurement"),
    }
    assert!(matches!(back.entries[1].outcome, Outcome::Failed(CellFailure::IsolationFailure)));
    assert_eq!(back.entries[2].backend_id, "ndarray-é");
    match &back.entries[2].outcome {
        Outcome::Succeeded(m) => assert!(m.durations.is_empty() && !m.device_sync_included),
        Outcome::Failed(_) => panic!("expected a measurement"),
    }
    assert_eq!(serialize(&back), bytes);
}

#[test]
fn encoding_layout_is_little_endian_and_length_prefixed() {
    let rs = ResultSet::new(258, "h".to_string(), String::new());
    let bytes = serialize(&rs);
    assert_eq!(
        bytes,
        vec![2, 1, 0, 0, 0, 0, 0, 0, 1, 0, 0, 0, 0, 0, 0, 0, b'h', 0, 0, 0, 0, 0, 0, 0, 0, 0, 0, 0, 0, 0, 0, 0, 0]
    );
}

#[test]
fn truncated_artifact_is_rejected() {
    let bytes = serialize(&sample_set());
    for cut in [0, 1, 8, 20, bytes.len() - 1] {
        let short = bytes[..cut].to_vec();
        assert!(matches!(deserialize(&short), Err(CellFailure::SerializationFailure)));
    }
}

#[test]
fn trailing_bytes_are_rejected() {
    let mut bytes = serialize(&sample_set());
    bytes.push(0);
    assert!(matches!(deserialize(&bytes), Err(CellFailure::SerializationFailure)));
}

#[test]
fn duplicate_keys_are_rejected() {
    let mut rs = ResultSet::new(0, String::new(), String::new());
    rs.insert_entry(Entry {
        spec_name: "data".to_string(),
        backend_id: "wgpu".to_string(),
        outcome: Outcome::Failed(CellFailure::Cancelled),
    });
    let one = serialize(&rs);
    // Same entry twice, with the count raised to two.
    let mut two = one.clone();
    let entry = one[32..].to_vec();
    two[24] = 2;
    two.extend_from_slice(&entry);
    assert!(matches!(deserialize(&two), Err(CellFailure::SerializationFailure)));
    assert!(deserialize(&one).is_ok());
}

#[test]
fn invalid_utf8_is_rejected() {
    let mut bytes = serialize(&ResultSet::new(0, "h".to_string(), String::new()));
    bytes[16] = 0xff;
    assert!(matches!(deserialize(&bytes), Err(CellFailure::SerializationFailure)));
}
