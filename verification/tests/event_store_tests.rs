use riverrun::event_store::{EventStoreError, StoredEvent};
#[test]
fn test_stored_event_creation() {
    let event = StoredEvent::new("test_event", 1, 1000, "game-1".to_string());
    assert_eq!(event.event, "test_event");
    assert_eq!(event.version, 1);
    assert_eq!(event.timestamp, 1000);
    assert_eq!(event.game_id, "game-1");
}

#[test]
fn test_event_store_error_display() {
    let err = EventStoreError::ConcurrencyConflict {
        expected: 5,
        actual: 7,
    };
    assert_eq!(
        err.to_string(),
        "concurrency conflict: expected version 5, actual 7"
    );

    let err = EventStoreError::NotFound("game-123".to_string());
    assert_eq!(err.to_string(), "game not found: game-123");

    let err = EventStoreError::StorageError("connection failed".to_string());
    assert_eq!(err.to_string(), "storage error: connection failed");

    let err = EventStoreError::SerializationError("invalid format".to_string());
    assert_eq!(err.to_string(), "serialization error: invalid format");
}
