use vtcode_runloop::activity::JsonValue;
use vtcode_runloop::trajectory::{should_write_trajectory, trajectory_bytes_have_steps, trajectory_has_steps};

fn doc(steps: JsonValue) -> JsonValue {
    JsonValue::Object(vec![
        ("schema_version".to_string(), JsonValue::String("ATIF-v1.4".to_string())),
        ("steps".to_string(), steps),
    ])
}

#[test]
fn empty_export_keeps_a_trajectory_with_steps() {
    let existing = doc(JsonValue::Array(vec![JsonValue::Object(Vec::new())]));
    assert!(trajectory_has_steps(Some(&existing)));
    assert!(!should_write_trajectory(0, trajectory_has_steps(Some(&existing))));
}

#[test]
fn exports_overwrite_empty_trajectories_or_bring_steps() {
    let existing = doc(JsonValue::Array(Vec::new()));
    assert!(!trajectory_has_steps(Some(&existing)));
    assert!(should_write_trajectory(0, trajectory_has_steps(Some(&existing))));
    assert!(should_write_trajectory(3, true));
}

#[test]
fn unreadable_or_malformed_documents_have_no_steps() {
    assert!(!trajectory_has_steps(None));
    assert!(!trajectory_has_steps(Some(&JsonValue::Array(Vec::new()))));
    assert!(!trajectory_has_steps(Some(&doc(JsonValue::String("x".to_string())))));
    assert!(!trajectory_has_steps(Some(&JsonValue::Object(Vec::new()))));
}

#[test]
fn trajectory_files_are_read_from_their_bytes() {
    assert!(trajectory_bytes_have_steps(br#"{"steps": [{"step_id": 1}], "final_metrics": {"total_steps": 1}}"#));
    assert!(!trajectory_bytes_have_steps(br#"{"steps": []}"#));
    assert!(!trajectory_bytes_have_steps(br#"{"steps": 3}"#));
    assert!(!trajectory_bytes_have_steps(b"not json"));
    assert!(!trajectory_bytes_have_steps(b""));
}
