use riverrun::event_publisher::{GameNotification, NoOpPublisher, NotificationPublisher, Street};
#[test]
fn test_notification_game_id() {
    let notification = GameNotification::GameStarted {
        game_id: "game-123".to_string(),
        timestamp: 1000,
        num_players: 4,
        player_ids: vec![],
    };
    assert_eq!(notification.game_id(), "game-123");
}

#[test]
fn test_notification_timestamp() {
    let notification = GameNotification::StreetDealt {
        game_id: "game-123".to_string(),
        timestamp: 2000,
        street: Street::Flop,
    };
    assert_eq!(notification.timestamp(), 2000);
}

#[test]
fn test_noop_publisher() {
    let publisher = NoOpPublisher;
    // Should not panic
    publisher.publish(GameNotification::GameEnded {
        game_id: "game-1".to_string(),
        timestamp: 0,
    });
}
