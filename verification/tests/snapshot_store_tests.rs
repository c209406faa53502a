use riverrun::snapshot_store::{Snapshot, SnapshotError, SnapshotPolicy};
#[test]
fn test_snapshot_creation() {
    let snapshot = Snapshot::new("test_state", 10, 1000, "game-1".to_string());
    assert_eq!(snapshot.state, "test_state");
    assert_eq!(snapshot.version, 10);
    assert_eq!(snapshot.timestamp, 1000);
    assert_eq!(snapshot.game_id, "game-1");
}

#[test]
fn test_snapshot_error_display() {
    let err = SnapshotError::NotFound("game-123".to_string());
    assert_eq!(err.to_string(), "snapshot not found: game-123");

    let err = SnapshotError::StorageError("disk full".to_string());
    assert_eq!(err.to_string(), "storage error: disk full");

    let err = SnapshotError::SerializationError("invalid format".to_string());
    assert_eq!(err.to_string(), "serialization error: invalid format");
}

#[test]
fn test_snapshot_policy_default() {
    let policy = SnapshotPolicy::default();
    assert_eq!(policy.every_n_events, 100);
    assert_eq!(policy.max_events_since_snapshot, 100);
}

#[test]
fn test_snapshot_policy_should_snapshot() {
    let policy = SnapshotPolicy {
        every_n_events: 10,
        max_events_since_snapshot: 15,
    };

    // No snapshot at version 0
    assert!(!policy.should_snapshot(0, 0));

    // Snapshot at version 10 (every_n_events)
    assert!(policy.should_snapshot(10, 0));

    // No snapshot at version 11 (only 1 event since snapshot at 10)
    assert!(!policy.should_snapshot(11, 10));

    // Snapshot at version 25 (15 events since snapshot at 10)
    assert!(policy.should_snapshot(25, 10));

    // Snapshot at version 20 (every_n_events)
    assert!(policy.should_snapshot(20, 15));
}
